//! A bounded, single-producer single-consumer channel.
//!
//! The bound is the point: it is what makes "a pipeline never holds more
//! than N items in flight" true regardless of how fast a producer runs.

use crate::registry;
use crate::registry::{DataView, PipelineData};
use std::collections::VecDeque;
use vstd::prelude::*;

verus! {

/// What became of an item that was sent.
#[derive(Debug)]
pub enum Sent {
    Taken,
    /// The buffer is full; the item comes back. This is the backpressure.
    Full(PipelineData),
    /// The receiver went away, so nothing will read what you are sending.
    /// A producing command treats this as "stop", not as an error to report.
    Closed,
}

/// What a receiver finds.
#[derive(Debug)]
pub enum Received {
    Item(PipelineData),
    /// Nothing yet; more may arrive.
    Waiting,
    /// End of stream: the sender is gone and the buffer is drained.
    Ended,
}

#[derive(Debug)]
pub struct Channel {
    buffer: VecDeque<PipelineData>,
    capacity: usize,
    sender_gone: bool,
    receiver_gone: bool,
}

#[verifier::ext_equal]
pub struct ChannelView {
    pub items: Seq<DataView>,
    pub capacity: usize,
    pub sender_gone: bool,
    pub receiver_gone: bool,
}

impl View for Channel {
    type V = ChannelView;

    closed spec fn view(&self) -> ChannelView {
        ChannelView {
            items: registry::items_view(self.buffer@),
            capacity: self.capacity,
            sender_gone: self.sender_gone,
            receiver_gone: self.receiver_gone,
        }
    }
}

impl ChannelView {
    pub open spec fn fresh(capacity: usize) -> ChannelView {
        ChannelView {
            items: Seq::empty(),
            capacity,
            sender_gone: false,
            receiver_gone: false,
        }
    }

    /// Is there room for an item that somebody may still read?
    pub open spec fn open(self) -> bool {
        !self.receiver_gone && self.items.len() < self.capacity
    }

    pub open spec fn with_item(self, d: DataView) -> ChannelView {
        ChannelView { items: self.items.push(d), ..self }
    }

    pub open spec fn without_first(self) -> ChannelView {
        ChannelView { items: self.items.drop_first(), ..self }
    }

    /// The channel after its sender went away.
    pub open spec fn unsent(self) -> ChannelView {
        ChannelView { sender_gone: true, ..self }
    }

    /// The channel after its receiver went away.
    pub open spec fn unread(self) -> ChannelView {
        ChannelView { receiver_gone: true, ..self }
    }

    /// Never more items than the capacity.
    pub open spec fn bounded(self) -> bool {
        self.items.len() <= self.capacity
    }

    pub open spec fn after_sends(self, ds: Seq<DataView>) -> ChannelView
        decreases ds.len(),
    {
        if ds.len() == 0 {
            self
        } else {
            let before = self.after_sends(ds.drop_last());
            if before.open() {
                before.with_item(ds.last())
            } else {
                before
            }
        }
    }

    pub open spec fn after_receives(self, n: nat) -> ChannelView
        decreases n,
    {
        if n == 0 || self.items.len() == 0 {
            self
        } else {
            self.without_first().after_receives((n - 1) as nat)
        }
    }
}

/// Whatever is sent, and however much, a channel holds no more than its
/// capacity.
pub proof fn sends_stay_bounded(ch: ChannelView, ds: Seq<DataView>)
    requires
        ch.bounded(),
    ensures
        ch.after_sends(ds).bounded(),
    decreases ds.len(),
{
    if ds.len() > 0 {
        sends_stay_bounded(ch, ds.drop_last());
    }
}

/// Items come out in the order they went in: with room for all of them, what is
/// sent stands behind what was there, and receiving takes it off from the
/// front.
pub proof fn first_in_first_out(ch: ChannelView, ds: Seq<DataView>, n: nat)
    requires
        !ch.receiver_gone,
        ch.items.len() + ds.len() <= ch.capacity,
        n <= ch.items.len() + ds.len(),
    ensures
        ch.after_sends(ds).items == ch.items + ds,
        ch.after_sends(ds).after_receives(n).items == (ch.items + ds).skip(n as int),
{
    sends_append(ch, ds);
    receives_skip(ch.after_sends(ds), n);
}

proof fn sends_append(ch: ChannelView, ds: Seq<DataView>)
    requires
        !ch.receiver_gone,
        ch.items.len() + ds.len() <= ch.capacity,
    ensures
        ch.after_sends(ds) == (ChannelView { items: ch.items + ds, ..ch }),
    decreases ds.len(),
{
    if ds.len() > 0 {
        sends_append(ch, ds.drop_last());
        assert(ch.after_sends(ds).items =~= ch.items + ds);
    } else {
        assert(ch.items + ds =~= ch.items);
    }
}

proof fn receives_skip(ch: ChannelView, n: nat)
    requires
        n <= ch.items.len(),
    ensures
        ch.after_receives(n).items == ch.items.skip(n as int),
    decreases n,
{
    if n > 0 {
        receives_skip(ch.without_first(), (n - 1) as nat);
        assert(ch.items.drop_first().skip(n - 1) =~= ch.items.skip(n as int));
    } else {
        assert(ch.items.skip(0) =~= ch.items);
    }
}

/// A channel for up to `capacity` items.
pub fn channel(capacity: usize) -> (r: Channel)
    requires
        capacity > 0,
    ensures
        r@ == ChannelView::fresh(capacity),
{
    let r = Channel {
        buffer: VecDeque::new(),
        capacity,
        sender_gone: false,
        receiver_gone: false,
    };
    proof {
        assert(r@ =~= ChannelView::fresh(capacity));
    }
    r
}

impl Channel {
    /// Hand an item over, unless the buffer is full or nobody reads it.
    pub fn send(&mut self, item: PipelineData) -> (r: Sent)
        ensures
            match r {
                Sent::Taken => old(self)@.open() && final(self)@ == old(self)@.with_item(item@),
                Sent::Full(back) => !old(self)@.open() && !old(self)@.receiver_gone && back@ == item@
                    && final(self)@ == old(self)@,
                Sent::Closed => old(self)@.receiver_gone && final(self)@ == old(self)@,
            },
    {
        if self.receiver_gone {
            return Sent::Closed;
        }
        if self.buffer.len() < self.capacity {
            let ghost before = self@;
            self.buffer.push_back(item);
            proof {
                assert(self@.items =~= before.items.push(item@));
            }
            return Sent::Taken;
        }
        Sent::Full(item)
    }

    /// The next item, if there is one.
    pub fn recv(&mut self) -> (r: Received)
        ensures
            match r {
                Received::Item(d) => old(self)@.items.len() > 0 && d@ == old(self)@.items[0]
                    && final(self)@ == old(self)@.without_first(),
                Received::Waiting => old(self)@.items.len() == 0 && !old(self)@.sender_gone
                    && final(self)@ == old(self)@,
                Received::Ended => old(self)@.items.len() == 0 && old(self)@.sender_gone
                    && final(self)@ == old(self)@,
            },
    {
        let ghost before = self@;
        match self.buffer.pop_front() {
            Some(d) => {
                proof {
                    assert(before.items[0] == d@);
                    assert(self@.items =~= before.items.drop_first());
                }
                Received::Item(d)
            },
            None => {
                proof {
                    assert(self@.items =~= before.items);
                }
                if self.sender_gone {
                    Received::Ended
                } else {
                    Received::Waiting
                }
            },
        }
    }

    /// The item that `recv` would give, left where it is.
    pub fn peek(&self) -> (r: Option<&PipelineData>)
        ensures
            match r {
                Some(d) => self@.items.len() > 0 && d@ == self@.items[0],
                None => self@.items.len() == 0,
            },
    {
        if self.buffer.len() > 0 {
            Some(&self.buffer[0])
        } else {
            None
        }
    }

    /// Items currently buffered.
    pub fn len(&self) -> (r: usize)
        ensures
            r == self@.items.len(),
    {
        self.buffer.len()
    }

    pub fn is_empty(&self) -> (r: bool)
        ensures
            r == (self@.items.len() == 0),
    {
        self.buffer.len() == 0
    }

    /// True once the receiver has gone away.
    pub fn is_closed(&self) -> (r: bool)
        ensures
            r == self@.receiver_gone,
    {
        self.receiver_gone
    }

    /// True once the sender has gone away and the buffer is drained.
    pub fn has_ended(&self) -> (r: bool)
        ensures
            r == (self@.sender_gone && self@.items.len() == 0),
    {
        self.sender_gone && self.buffer.len() == 0
    }

    /// Is there room for an item that somebody may still read?
    pub fn is_open(&self) -> (r: bool)
        ensures
            r == self@.open(),
    {
        !self.receiver_gone && self.buffer.len() < self.capacity
    }

    /// The sender goes away.
    pub fn drop_sender(&mut self)
        ensures
            final(self)@ == old(self)@.unsent(),
    {
        self.sender_gone = true;
        proof {
            assert(self@ =~= old(self)@.unsent());
        }
    }

    /// The receiver goes away.
    pub fn drop_receiver(&mut self)
        ensures
            final(self)@ == old(self)@.unread(),
    {
        self.receiver_gone = true;
        proof {
            assert(self@ =~= old(self)@.unread());
        }
    }
}

} // verus!
