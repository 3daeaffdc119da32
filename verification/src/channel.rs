//! Duplex channel endpoints as the topology engine sees them.
//!
//! The engine never moves bytes itself. It decides who owns which half of
//! which channel, so a half is a token that carries the number of the channel
//! it belongs to. A token cannot be copied, and the only way to obtain one is
//! to take it out of a [`Channel`], which hands each half out at most once.

use vstd::prelude::*;

verus! {

/// The sending half of a channel.
#[derive(Debug)]
pub struct SenderHalf {
    id: u64,
}

/// The receiving half of a channel.
#[derive(Debug)]
pub struct ReceiverHalf {
    id: u64,
}

impl SenderHalf {
    /// Number of the channel this half belongs to.
    pub closed spec fn chan(&self) -> u64 {
        self.id
    }

    /// Number of the channel this half belongs to.
    pub fn id(&self) -> (r: u64)
        ensures
            r == self.chan(),
    {
        self.id
    }
}

impl ReceiverHalf {
    /// Number of the channel this half belongs to.
    pub closed spec fn chan(&self) -> u64 {
        self.id
    }

    /// Number of the channel this half belongs to.
    pub fn id(&self) -> (r: u64)
        ensures
            r == self.chan(),
    {
        self.id
    }
}

/// One endpoint of a duplex channel, with a record of the halves that nobody
/// took yet.
#[derive(Debug)]
pub struct Channel {
    id: u64,
    tx: bool,
    rx: bool,
}

impl Channel {
    /// Number of this channel.
    pub closed spec fn chan(&self) -> u64 {
        self.id
    }

    /// Whether the sending half is still here.
    pub closed spec fn has_tx(&self) -> bool {
        self.tx
    }

    /// Whether the receiving half is still here.
    pub closed spec fn has_rx(&self) -> bool {
        self.rx
    }

    /// A channel endpoint numbered `id`, with both halves in place.
    pub fn intact(id: u64) -> (c: Channel)
        ensures
            c.chan() == id,
            c.has_tx(),
            c.has_rx(),
    {
        Channel { id, tx: true, rx: true }
    }

    /// Number of this channel.
    pub fn id(&self) -> (r: u64)
        ensures
            r == self.chan(),
    {
        self.id
    }

    /// Whether the sending half is still here.
    pub fn tx_available(&self) -> (r: bool)
        ensures
            r == self.has_tx(),
    {
        self.tx
    }

    /// Whether the receiving half is still here.
    pub fn rx_available(&self) -> (r: bool)
        ensures
            r == self.has_rx(),
    {
        self.rx
    }

    /// Hands out the receiving half if it is still here. Afterwards it is gone,
    /// whatever was returned; the sending half is left as it was.
    pub fn rx_take(&mut self) -> (r: Option<ReceiverHalf>)
        ensures
            final(self).chan() == old(self).chan(),
            final(self).has_tx() == old(self).has_tx(),
            !final(self).has_rx(),
            r is Some <==> old(self).has_rx(),
            r is Some ==> r->0.chan() == old(self).chan(),
    {
        if self.rx {
            self.rx = false;
            Some(ReceiverHalf { id: self.id })
        } else {
            None
        }
    }

    /// Hands out the sending half if it is still here. Afterwards it is gone,
    /// whatever was returned; the receiving half is left as it was.
    pub fn tx_take(&mut self) -> (r: Option<SenderHalf>)
        ensures
            final(self).chan() == old(self).chan(),
            final(self).has_rx() == old(self).has_rx(),
            !final(self).has_tx(),
            r is Some <==> old(self).has_tx(),
            r is Some ==> r->0.chan() == old(self).chan(),
    {
        if self.tx {
            self.tx = false;
            Some(SenderHalf { id: self.id })
        } else {
            None
        }
    }

    /// Decomposes an intact endpoint into its two halves. An endpoint that
    /// already lost a half yields nothing.
    pub fn split(self) -> (r: Option<(SenderHalf, ReceiverHalf)>)
        ensures
            r is Some <==> self.has_tx() && self.has_rx(),
            r is Some ==> r.unwrap().0.chan() == self.chan(),
            r is Some ==> r.unwrap().1.chan() == self.chan(),
    {
        if self.tx && self.rx {
            Some((SenderHalf { id: self.id }, ReceiverHalf { id: self.id }))
        } else {
            None
        }
    }
}

} // verus!
