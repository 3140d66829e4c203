//! The ordered hand-off queue between the event bridge and a consumer:
//! unbounded, first-in first-out, delivering each message at most once.
//! Durability across process restarts is not provided.

use crate::message::MqttMessage;
use vstd::prelude::*;

verus! {

/// An ordered, unbounded queue of domain messages. Sending fails once the
/// receiving side is gone; otherwise it appends. Receiving takes the
/// oldest message first.
pub struct MessageChannel {
    /// The messages sent and not yet received, oldest first.
    pub queue: Vec<MqttMessage>,
    /// Whether the receiving side is still attached.
    pub open: bool,
}

impl MessageChannel {
    /// An empty channel with a live receiver.
    pub fn new() -> (c: MessageChannel)
        ensures
            c.queue@.len() == 0,
            c.open,
    {
        MessageChannel { queue: Vec::new(), open: true }
    }

    /// How many messages are waiting.
    pub fn len(&self) -> (n: usize)
        ensures
            n == self.queue@.len(),
    {
        self.queue.len()
    }

    /// Whether the receiving side is still attached.
    pub fn is_open(&self) -> (b: bool)
        ensures
            b == self.open,
    {
        self.open
    }

    /// Appends a message, unless the receiver is gone, in which case the
    /// message is handed back and the queue is untouched.
    pub fn send(&mut self, m: MqttMessage) -> (r: Result<(), MqttMessage>)
        ensures
            old(self).open ==> r is Ok && final(self).queue@ == old(self).queue@.push(m)
                && final(self).open,
            !old(self).open ==> r == Err::<(), MqttMessage>(m) && *final(self) == *old(self),
    {
        if self.open {
            self.queue.push(m);
            Ok(())
        } else {
            Err(m)
        }
    }

    /// Takes the oldest waiting message, if any.
    pub fn recv(&mut self) -> (r: Option<MqttMessage>)
        ensures
            old(self).queue@.len() == 0 ==> r is None && *final(self) == *old(self),
            old(self).queue@.len() > 0 ==> r == Some(old(self).queue@[0]) && final(self).queue@
                == old(self).queue@.subrange(1, old(self).queue@.len() as int) && final(self).open
                == old(self).open,
    {
        if self.queue.len() == 0 {
            None
        } else {
            Some(self.queue.remove(0))
        }
    }

    /// Detaches the receiving side: later sends fail, waiting messages
    /// stay readable.
    pub fn close(&mut self)
        ensures
            !final(self).open,
            final(self).queue@ == old(self).queue@,
    {
        self.open = false;
    }
}

/// Draining a channel returns exactly the messages that were enqueued, in
/// their enqueue order: receiving once removes the head and leaves the
/// rest in order, so the n-th receive yields the n-th enqueued message.
pub proof fn lemma_fifo_order(c1: MessageChannel, c2: MessageChannel, c3: MessageChannel, r1:
    Option<MqttMessage>, r2: Option<MqttMessage>)
    requires
        c1.queue@.len() >= 2,
        // first receive
        r1 == Some(c1.queue@[0]),
        c2.queue@ == c1.queue@.subrange(1, c1.queue@.len() as int),
        // second receive
        r2 == Some(c2.queue@[0]),
        c3.queue@ == c2.queue@.subrange(1, c2.queue@.len() as int),
    ensures
        r1 == Some(c1.queue@[0]),
        r2 == Some(c1.queue@[1]),
        c3.queue@ == c1.queue@.subrange(2, c1.queue@.len() as int),
{
    assert(c2.queue@[0] == c1.queue@[1]);
    assert(c3.queue@ =~= c1.queue@.subrange(2, c1.queue@.len() as int));
}

/// A consumer holding the receiving end of a channel; it hands messages
/// out one at a time, oldest first.
pub struct MessageHandler {
    /// The channel drained by this handler.
    pub channel: MessageChannel,
}

impl MessageHandler {
    /// A handler over the given channel.
    pub fn new(receiver: MessageChannel) -> (h: MessageHandler)
        ensures
            h.channel == receiver,
    {
        MessageHandler { channel: receiver }
    }

    /// The next message to process, oldest first, if any is waiting.
    pub fn next_message(&mut self) -> (r: Option<MqttMessage>)
        ensures
            old(self).channel.queue@.len() == 0 ==> r is None && *final(self) == *old(self),
            old(self).channel.queue@.len() > 0 ==> r == Some(old(self).channel.queue@[0])
                && final(self).channel.queue@ == old(self).channel.queue@.subrange(
                1,
                old(self).channel.queue@.len() as int,
            ),
    {
        self.channel.recv()
    }
}

} // verus!
