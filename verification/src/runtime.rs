//! The semantic model of the generated actor system: the unbounded
//! multi-producer/single-consumer mailbox, the worker's dispatch loop, and the
//! decision logic of the two accessor methods. The emitted scaffolding must
//! satisfy these contracts; the host's executor supplies the scheduling.

use vstd::prelude::*;

verus! {

/// The recoverable errors the generated accessor methods return.
#[derive(Debug, Clone, Copy, PartialEq, Eq, Structural)]
pub enum ErrorKind {
    /// The caller passed a message whose tag does not match the method.
    InvalidMessageType,
    /// The mailbox's receiving side was gone before the enqueue.
    SendFailed,
    /// The reply producer was dropped without replying: the worker stopped or
    /// discarded the message mid-flight.
    MailboxClosed,
}

/// The dispatch loop's states: it runs until the mailbox reports that no
/// senders remain, and `Stopped` is terminal.
#[derive(Debug, Clone, Copy, PartialEq, Eq, Structural)]
pub enum WorkerState {
    Running,
    Stopped,
}

/// What one receive attempt on the mailbox reports: the next message, a
/// permanently empty mailbox (every sending endpoint dropped), or an empty
/// mailbox that may still fill (the receive would suspend).
pub enum RecvOutcome<M> {
    Message(M),
    Closed,
    Pending,
}

/// What the caller's wait on its private reply channel resolves to: the single
/// value the worker's handler supplied, or the producing half dropped without
/// ever sending.
pub enum ReplyOutcome<V> {
    Delivered(V),
    Dropped,
}

/// The mailbox connecting callers to one worker: an unbounded FIFO queue, the
/// single consumer's liveness, and the count of sending endpoints.
pub struct Mailbox<M> {
    pub queue: Vec<M>,
    pub receiver_live: bool,
    pub sender_count: usize,
}

impl<M> Mailbox<M> {
    /// A fresh mailbox: empty, its receiver owned by the worker to be, one
    /// sending endpoint held by the handle.
    pub fn new() -> (m: Mailbox<M>)
        ensures
            m.queue@ == Seq::<M>::empty(),
            m.receiver_live,
            m.sender_count == 1,
    {
        Mailbox { queue: Vec::new(), receiver_live: true, sender_count: 1 }
    }

    /// Sharing the sending side: the handle may be cloned across arbitrarily
    /// many callers.
    pub fn clone_sender(&mut self)
        requires
            old(self).sender_count < usize::MAX,
        ensures
            final(self).sender_count == old(self).sender_count + 1,
            final(self).queue@ == old(self).queue@,
            final(self).receiver_live == old(self).receiver_live,
    {
        self.sender_count = self.sender_count + 1;
    }

    /// One sending endpoint dropped.
    pub fn drop_sender(&mut self)
        requires
            old(self).sender_count > 0,
        ensures
            final(self).sender_count == old(self).sender_count - 1,
            final(self).queue@ == old(self).queue@,
            final(self).receiver_live == old(self).receiver_live,
    {
        self.sender_count = self.sender_count - 1;
    }

    /// The worker terminated and released the receiving endpoint.
    pub fn drop_receiver(&mut self)
        ensures
            !final(self).receiver_live,
            final(self).queue@ == old(self).queue@,
            final(self).sender_count == old(self).sender_count,
    {
        self.receiver_live = false;
    }

    /// An enqueue through a sending endpoint: never blocks, appends in FIFO
    /// order, and fails exactly when the receiving side has been dropped —
    /// then the mailbox is unchanged.
    pub fn send(&mut self, m: M) -> (r: Result<(), ErrorKind>)
        ensures
            old(self).receiver_live ==> r is Ok
                && final(self).queue@ == old(self).queue@.push(m),
            !old(self).receiver_live ==> r == Err::<(), ErrorKind>(ErrorKind::SendFailed)
                && final(self).queue@ == old(self).queue@,
            final(self).receiver_live == old(self).receiver_live,
            final(self).sender_count == old(self).sender_count,
    {
        if self.receiver_live {
            self.queue.push(m);
            Ok(())
        } else {
            Err(ErrorKind::SendFailed)
        }
    }

    /// The single consumer's receive: takes the front of the queue; on an
    /// empty queue it reports `Closed` exactly when no sending endpoint
    /// remains, else it would suspend.
    pub fn recv(&mut self) -> (r: RecvOutcome<M>)
        requires
            old(self).receiver_live,
        ensures
            old(self).queue@.len() > 0 ==> (r matches RecvOutcome::Message(m)
                && m == old(self).queue@[0]
                && final(self).queue@ == old(self).queue@.skip(1)),
            old(self).queue@.len() == 0 && old(self).sender_count == 0 ==> r is Closed
                && final(self).queue@ == old(self).queue@,
            old(self).queue@.len() == 0 && old(self).sender_count > 0 ==> r is Pending
                && final(self).queue@ == old(self).queue@,
            final(self).receiver_live == old(self).receiver_live,
            final(self).sender_count == old(self).sender_count,
    {
        if self.queue.len() > 0 {
            let m = self.queue.remove(0);
            proof {
                assert(self.queue@ =~= old(self).queue@.skip(1));
            }
            RecvOutcome::Message(m)
        } else if self.sender_count == 0 {
            RecvOutcome::Closed
        } else {
            RecvOutcome::Pending
        }
    }
}

/// One step of the dispatch loop's state machine: a received message keeps the
/// worker running (the handler is invoked, its result discarded), a closed
/// mailbox stops it, an empty-but-open mailbox suspends it in place; `Stopped`
/// is terminal whatever the outcome.
pub fn dispatch_step<M>(st: WorkerState, outcome: &RecvOutcome<M>) -> (next: WorkerState)
    ensures
        st is Stopped ==> next is Stopped,
        st is Running && outcome is Message ==> next is Running,
        st is Running && outcome is Closed ==> next is Stopped,
        st is Running && outcome is Pending ==> next is Running,
{
    match st {
        WorkerState::Stopped => WorkerState::Stopped,
        WorkerState::Running => match outcome {
            RecvOutcome::Closed => WorkerState::Stopped,
            _ => WorkerState::Running,
        },
    }
}

/// The round-trip accessor's decision up to its suspension point: a message of
/// the wrong tag is rejected before any send, so nothing is enqueued; a
/// matching message is enqueued unless the receiving side is gone.
pub fn round_trip_send<M>(mb: &mut Mailbox<M>, msg: M, tag_matches: bool) -> (r: Result<
    (),
    ErrorKind,
>)
    ensures
        !tag_matches ==> r == Err::<(), ErrorKind>(ErrorKind::InvalidMessageType)
            && final(mb).queue@ == old(mb).queue@,
        tag_matches && old(mb).receiver_live ==> r is Ok
            && final(mb).queue@ == old(mb).queue@.push(msg),
        tag_matches && !old(mb).receiver_live ==> r == Err::<(), ErrorKind>(ErrorKind::SendFailed)
            && final(mb).queue@ == old(mb).queue@,
        final(mb).receiver_live == old(mb).receiver_live,
        final(mb).sender_count == old(mb).sender_count,
{
    if !tag_matches {
        Err(ErrorKind::InvalidMessageType)
    } else {
        mb.send(msg)
    }
}

/// The round-trip accessor's resumption: the wait on the private reply channel
/// resolves exactly once — to the handler's single value, returned as is, or
/// to the producer dropped without replying.
pub fn resolve_reply<V>(r: ReplyOutcome<V>) -> (res: Result<V, ErrorKind>)
    ensures
        r matches ReplyOutcome::Delivered(v) ==> res == Ok::<V, ErrorKind>(v),
        r is Dropped ==> res == Err::<V, ErrorKind>(ErrorKind::MailboxClosed),
{
    match r {
        ReplyOutcome::Delivered(v) => Ok(v),
        ReplyOutcome::Dropped => Err(ErrorKind::MailboxClosed),
    }
}

/// The fire-and-forget accessor: verifies the tag, enqueues, and succeeds
/// immediately after the enqueue, awaiting nothing.
pub fn fire_and_forget_send<M>(mb: &mut Mailbox<M>, msg: M, tag_matches: bool) -> (r: Result<
    (),
    ErrorKind,
>)
    ensures
        !tag_matches ==> r == Err::<(), ErrorKind>(ErrorKind::InvalidMessageType)
            && final(mb).queue@ == old(mb).queue@,
        tag_matches && old(mb).receiver_live ==> r == Ok::<(), ErrorKind>(())
            && final(mb).queue@ == old(mb).queue@.push(msg),
        tag_matches && !old(mb).receiver_live ==> r == Err::<(), ErrorKind>(ErrorKind::SendFailed)
            && final(mb).queue@ == old(mb).queue@,
        final(mb).receiver_live == old(mb).receiver_live,
        final(mb).sender_count == old(mb).sender_count,
{
    if !tag_matches {
        Err(ErrorKind::InvalidMessageType)
    } else {
        match mb.send(msg) {
            Ok(_) => Ok(()),
            Err(e) => Err(e),
        }
    }
}

/// One abstract mailbox operation, as the queue sees it: an enqueue through
/// any sending endpoint, or the single consumer's dequeue.
pub enum MailboxOp<M> {
    Enqueue(M),
    Dequeue,
}

/// The queue after one operation: an enqueue appends, a dequeue takes the
/// front (and leaves an empty queue empty).
pub open spec fn apply_op<M>(q: Seq<M>, op: MailboxOp<M>) -> Seq<M> {
    match op {
        MailboxOp::Enqueue(m) => q.push(m),
        MailboxOp::Dequeue => if q.len() > 0 {
            q.skip(1)
        } else {
            q
        },
    }
}

pub open spec fn queue_after<M>(q0: Seq<M>, ops: Seq<MailboxOp<M>>) -> Seq<M>
    decreases ops.len(),
{
    if ops.len() == 0 {
        q0
    } else {
        apply_op(queue_after(q0, ops.drop_last()), ops.last())
    }
}

/// Every message enqueued over a run of operations, in enqueue order.
pub open spec fn enqueued<M>(ops: Seq<MailboxOp<M>>) -> Seq<M>
    decreases ops.len(),
{
    if ops.len() == 0 {
        Seq::empty()
    } else {
        enqueued(ops.drop_last()) + match ops.last() {
            MailboxOp::Enqueue(m) => seq![m],
            MailboxOp::Dequeue => Seq::empty(),
        }
    }
}

/// Every message the worker's handler observed over a run of operations, in
/// observation order.
pub open spec fn delivered<M>(q0: Seq<M>, ops: Seq<MailboxOp<M>>) -> Seq<M>
    decreases ops.len(),
{
    if ops.len() == 0 {
        Seq::empty()
    } else {
        delivered(q0, ops.drop_last()) + match ops.last() {
            MailboxOp::Enqueue(m) => Seq::empty(),
            MailboxOp::Dequeue => if queue_after(q0, ops.drop_last()).len() > 0 {
                seq![queue_after(q0, ops.drop_last())[0]]
            } else {
                Seq::empty()
            },
        }
    }
}

/// FIFO delivery: over any interleaving of enqueues and dequeues, the handler
/// observes exactly a prefix of the total enqueue order, in that order, and
/// the queue holds the rest. In particular, for two messages enqueued in
/// order by one caller, the handler observes the first before the second.
pub proof fn lemma_fifo_delivery<M>(q0: Seq<M>, ops: Seq<MailboxOp<M>>)
    ensures
        delivered(q0, ops).len() <= (q0 + enqueued(ops)).len(),
        delivered(q0, ops) == (q0 + enqueued(ops)).take(delivered(q0, ops).len() as int),
        queue_after(q0, ops) == (q0 + enqueued(ops)).skip(delivered(q0, ops).len() as int),
    decreases ops.len(),
{
    if ops.len() == 0 {
        assert(q0 + enqueued(ops) =~= q0);
        assert(delivered(q0, ops) =~= (q0 + enqueued(ops)).take(0));
        assert(queue_after(q0, ops) =~= (q0 + enqueued(ops)).skip(0));
    } else {
        let prev = ops.drop_last();
        lemma_fifo_delivery(q0, prev);
        let total_prev = q0 + enqueued(prev);
        let n = delivered(q0, prev).len() as int;
        match ops.last() {
            MailboxOp::Enqueue(m) => {
                assert(enqueued(ops) =~= enqueued(prev).push(m));
                let total = q0 + enqueued(ops);
                assert(total =~= total_prev.push(m));
                assert(delivered(q0, ops) =~= delivered(q0, prev));
                assert(delivered(q0, ops) =~= total.take(n));
                assert(queue_after(q0, ops) == queue_after(q0, prev).push(m));
                assert(queue_after(q0, ops) =~= total.skip(n));
            }
            MailboxOp::Dequeue => {
                assert(enqueued(ops) =~= enqueued(prev));
                let total = q0 + enqueued(ops);
                assert(total =~= total_prev);
                if queue_after(q0, prev).len() > 0 {
                    assert(queue_after(q0, prev)[0] == total[n]);
                    assert(delivered(q0, ops) =~= delivered(q0, prev).push(total[n]));
                    assert(delivered(q0, ops) =~= total.take(n + 1));
                    assert(queue_after(q0, ops) == queue_after(q0, prev).skip(1));
                    assert(queue_after(q0, ops) =~= total.skip(n + 1));
                } else {
                    assert(delivered(q0, ops) =~= delivered(q0, prev));
                    assert(delivered(q0, ops) =~= total.take(n));
                    assert(queue_after(q0, ops) =~= total.skip(n));
                }
            }
        }
    }
}

/// FIFO per producer, on two named messages: if one caller enqueues a message
/// and later another, both eventually delivered, the handler observes them at
/// those same positions, in order.
pub proof fn lemma_fifo_per_producer<M>(q0: Seq<M>, ops: Seq<MailboxOp<M>>, i: int, j: int)
    requires
        0 <= i < j < (q0 + enqueued(ops)).len(),
        j < delivered(q0, ops).len(),
    ensures
        delivered(q0, ops)[i] == (q0 + enqueued(ops))[i],
        delivered(q0, ops)[j] == (q0 + enqueued(ops))[j],
    decreases ops.len(),
{
    lemma_fifo_delivery(q0, ops);
}

} // verus!
