//! The route table and the fan-out step of a router.
//!
//! A route table maps a topic to the ordered list of sending halves that
//! subscribed to it. Its mathematical value is a total function from topics to
//! sequences of channel numbers, which is empty on every topic that nobody
//! subscribed to.

use vstd::prelude::*;
use crate::channel::SenderHalf;
use crate::message::Message;
use crate::topology::fan_out;
use crate::topology::subscribers_in;
use crate::topology::Parcel;
use crate::topology::Routes;

verus! {

/// The subscribers of one topic, in the order in which they were declared.
#[derive(Debug)]
pub struct Route {
    pub topic: String,
    pub senders: Vec<SenderHalf>,
}

/// Topic-keyed routing table.
#[derive(Debug)]
pub struct RouteTable {
    routes: Vec<Route>,
}

/// One message on its way to one sending half.
#[derive(Debug)]
pub struct Delivery {
    /// Number of the channel whose sending half gets the message.
    pub to: u64,
    pub message: Message,
}

/// A message arrived on a topic that has no subscribers.
#[derive(Debug)]
pub struct RoutingError {
    pub topic: String,
}

/// The channel numbers of a list of sending halves.
pub open spec fn channels_of(senders: Seq<SenderHalf>) -> Seq<u64> {
    Seq::new(senders.len(), |i: int| senders[i].chan())
}

impl View for Delivery {
    type V = Parcel;

    open spec fn view(&self) -> Parcel {
        Parcel { to: self.to, message: self.message@ }
    }
}

/// The parcels of a list of deliveries, in order.
pub open spec fn parcels(out: Seq<Delivery>) -> Seq<Parcel> {
    Seq::new(out.len(), |i: int| out[i]@)
}

impl RouteTable {
    /// No topic is listed twice, and no listed topic is without subscribers.
    pub closed spec fn wf(&self) -> bool {
        &&& forall|i: int, j: int|
            0 <= i < j < self.routes@.len() ==> self.routes@[i].topic@ != self.routes@[j].topic@
        &&& forall|i: int| 0 <= i < self.routes@.len() ==> self.routes@[i].senders@.len() > 0
    }

    /// Whether `topic` is listed at position `i`.
    closed spec fn listed_at(&self, topic: Seq<char>, i: int) -> bool {
        0 <= i < self.routes@.len() && self.routes@[i].topic@ == topic
    }

    /// The channels listed under `topic`, where it is listed.
    closed spec fn listed_subscribers(&self, topic: Seq<char>) -> Seq<u64> {
        channels_of(self.routes@[choose|i: int| self.listed_at(topic, i)].senders@)
    }

    /// The table as a value: each listed topic with its subscribers.
    pub closed spec fn view(&self) -> Routes {
        Map::new(
            |topic: Seq<char>| exists|i: int| self.listed_at(topic, i),
            |topic: Seq<char>| self.listed_subscribers(topic),
        )
    }

    /// The channels subscribed to `topic`, in declaration order; empty where
    /// the topic is unknown.
    pub open spec fn subscribers(&self, topic: Seq<char>) -> Seq<u64> {
        subscribers_in(self@, topic)
    }

    /// In a well-formed table every listed topic has a subscriber.
    pub proof fn listed_topics_have_subscribers(&self, topic: Seq<char>)
        requires
            self.wf(),
        ensures
            self@.contains_key(topic) <==> self.subscribers(topic).len() > 0,
    {
        if exists|i: int| self.listed_at(topic, i) {
            let i = choose|i: int| self.listed_at(topic, i);
            self.subscribers_at(topic, i);
        }
    }

    /// In a well-formed table the position of a topic decides its subscribers.
    proof fn subscribers_at(&self, topic: Seq<char>, i: int)
        requires
            self.wf(),
            self.listed_at(topic, i),
        ensures
            self@.contains_key(topic),
            self.subscribers(topic) == channels_of(self.routes@[i].senders@),
    {
        let k = choose|k: int| self.listed_at(topic, k);
        if k < i {
            assert(self.routes@[k].topic@ != self.routes@[i].topic@);
        } else if i < k {
            assert(self.routes@[i].topic@ != self.routes@[k].topic@);
        }
    }

    /// A topic that is listed nowhere has no subscribers.
    proof fn subscribers_absent(&self, topic: Seq<char>)
        requires
            forall|i: int| 0 <= i < self.routes@.len() ==> self.routes@[i].topic@ != topic,
        ensures
            !self@.contains_key(topic),
            self.subscribers(topic) == Seq::<u64>::empty(),
    {
        assert(!exists|i: int| self.listed_at(topic, i));
    }

    /// The empty table.
    pub fn new() -> (t: RouteTable)
        ensures
            t.wf(),
            t@ == Map::<Seq<char>, Seq<u64>>::empty(),
    {
        let t = RouteTable { routes: Vec::new() };
        proof {
            assert forall|topic: Seq<char>| !t@.contains_key(topic) by {
                t.subscribers_absent(topic);
            }
            assert(t@ =~= Map::<Seq<char>, Seq<u64>>::empty());
        }
        t
    }

    /// Position at which `topic` is listed, if it is.
    fn position(&self, topic: &String) -> (r: Option<usize>)
        ensures
            match r {
                Some(i) => self.listed_at(topic@, i as int),
                None => forall|i: int|
                    0 <= i < self.routes@.len() ==> self.routes@[i].topic@ != topic@,
            },
    {
        let mut i: usize = 0;
        while i < self.routes.len()
            invariant
                i <= self.routes@.len(),
                forall|j: int| 0 <= j < i ==> self.routes@[j].topic@ != topic@,
            decreases self.routes@.len() - i,
        {
            if self.routes[i].topic == *topic {
                return Some(i);
            }
            i += 1;
        }
        None
    }

    /// Whether anybody subscribed to `topic`.
    pub fn has_topic(&self, topic: &String) -> (r: bool)
        requires
            self.wf(),
        ensures
            r == (self.subscribers(topic@).len() > 0),
    {
        match self.position(topic) {
            Some(i) => {
                proof {
                    self.subscribers_at(topic@, i as int);
                }
                true
            },
            None => {
                proof {
                    self.subscribers_absent(topic@);
                }
                false
            },
        }
    }

    /// Appends `tx` to the subscribers of `topic`, listing the topic if it was
    /// unknown. Every other topic keeps its subscribers.
    pub fn add(&mut self, topic: String, tx: SenderHalf)
        requires
            old(self).wf(),
        ensures
            final(self).wf(),
            final(self)@ == old(self)@.insert(
                topic@,
                old(self).subscribers(topic@).push(tx.chan()),
            ),
    {
        let ghost before = *self;
        let ghost id = tx.chan();
        match self.position(&topic) {
            Some(i) => {
                proof {
                    before.subscribers_at(topic@, i as int);
                }
                self.routes[i].senders.push(tx);
                proof {
                    assert(self.routes@.len() == before.routes@.len());
                    assert(forall|j: int|
                        0 <= j < self.routes@.len() ==> self.routes@[j].topic@
                            == before.routes@[j].topic@);
                    assert(self.wf());
                    assert(self.listed_at(topic@, i as int));
                    self.subscribers_at(topic@, i as int);
                    assert(channels_of(self.routes@[i as int].senders@) =~= channels_of(
                        before.routes@[i as int].senders@,
                    ).push(id));
                    let target = before@.insert(topic@, before.subscribers(topic@).push(id));
                    assert forall|other: Seq<char>|
                        (#[trigger] self@.dom().contains(other) <==> target.dom().contains(other))
                            && (self@.dom().contains(other) ==> self@[other]
                            == target[other]) by {
                        if other == topic@ {
                        } else
                        if exists|k: int| before.listed_at(other, k) {
                            let k = choose|k: int| before.listed_at(other, k);
                            assert(self.listed_at(other, k));
                            before.subscribers_at(other, k);
                            self.subscribers_at(other, k);
                        } else {
                            assert forall|k: int| 0 <= k < self.routes@.len() implies
                                self.routes@[k].topic@ != other by {
                                assert(!before.listed_at(other, k));
                            }
                            self.subscribers_absent(other);
                        }
                    }
                    assert(self@ =~= target);
                }
            },
            None => {
                proof {
                    before.subscribers_absent(topic@);
                }
                let ghost n = self.routes@.len() as int;
                let mut senders: Vec<SenderHalf> = Vec::new();
                senders.push(tx);
                self.routes.push(Route { topic, senders });
                proof {
                    assert(self.routes@.len() == n + 1);
                    assert(forall|j: int| 0 <= j < n ==> self.routes@[j] == before.routes@[j]);
                    assert(self.wf());
                    assert(self.listed_at(topic@, n));
                    self.subscribers_at(topic@, n);
                    assert(channels_of(self.routes@[n].senders@) =~= Seq::<u64>::empty().push(id));
                    let target = before@.insert(topic@, before.subscribers(topic@).push(id));
                    assert forall|other: Seq<char>|
                        (#[trigger] self@.dom().contains(other) <==> target.dom().contains(other))
                            && (self@.dom().contains(other) ==> self@[other]
                            == target[other]) by {
                        if other == topic@ {
                        } else
                        if exists|k: int| before.listed_at(other, k) {
                            let k = choose|k: int| before.listed_at(other, k);
                            assert(self.listed_at(other, k));
                            before.subscribers_at(other, k);
                            self.subscribers_at(other, k);
                        } else {
                            assert forall|k: int| 0 <= k < self.routes@.len() implies
                                self.routes@[k].topic@ != other by {
                                if k < n {
                                    assert(!before.listed_at(other, k));
                                }
                            }
                            self.subscribers_absent(other);
                        }
                    }
                    assert(self@ =~= target);
                }
            },
        }
    }

    /// The fan-out step: one delivery of `msg` for each subscriber of its
    /// topic, in declaration order. All but the last carry a copy, the last
    /// carries `msg` itself. A topic without subscribers is an error.
    pub fn dispatch(&self, msg: Message) -> (r: Result<Vec<Delivery>, RoutingError>)
        requires
            self.wf(),
        ensures
            match r {
                Ok(out) => self.subscribers(msg@.topic).len() > 0 && parcels(out@) == fan_out(
                    self.subscribers(msg@.topic),
                    msg@,
                ),
                Err(e) => self.subscribers(msg@.topic).len() == 0 && e.topic@ == msg@.topic,
            },
    {
        match self.position(&msg.topic) {
            None => {
                proof {
                    self.subscribers_absent(msg@.topic);
                }
                Err(RoutingError { topic: msg.topic })
            },
            Some(k) => {
                proof {
                    self.subscribers_at(msg@.topic, k as int);
                }
                let senders = &self.routes[k].senders;
                let ghost subs = channels_of(senders@);
                let except_last: usize = senders.len() - 1;
                let mut out: Vec<Delivery> = Vec::new();
                let mut i: usize = 0;
                while i < except_last
                    invariant
                        i <= except_last,
                        except_last + 1 == senders@.len(),
                        subs == channels_of(senders@),
                        out@.len() == i,
                        forall|j: int|
                            0 <= j < i ==> (#[trigger] out@[j]).to == subs[j] && out@[j].message@
                                == msg@,
                    decreases except_last - i,
                {
                    out.push(Delivery { to: senders[i].id(), message: msg.duplicate() });
                    i += 1;
                }
                out.push(Delivery { to: senders[except_last].id(), message: msg });
                proof {
                    assert(parcels(out@) =~= fan_out(subs, msg@));
                }
                Ok(out)
            },
        }
    }
}

} // verus!
