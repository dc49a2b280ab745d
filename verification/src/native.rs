//! The event contract between a native driver and the cooperative scheduler
//! that polls it.
//!
//! A driver reports progress as [`NativeProgramEvent`] values: a request to
//! emit a message, a request to cancel a previously emitted message, or an
//! answer to a message it received. A driver that expects a reply to an
//! emitted message hands out a one-shot write-back capability
//! ([`NativeProgramMessageIdWrite`]); the scheduler assigns the message
//! identifier and acknowledges it through that capability before any reply
//! can be correlated back. An emission without a capability is
//! fire-and-forget: no reply is ever delivered for it.
//!
//! [`CorrelationTracker`] is the scheduler-side ledger enforcing that
//! discipline: only acknowledged identifiers await a reply, each reply
//! settles its identifier, and a settled or cancelled identifier cannot be
//! delivered again.

use vstd::prelude::*;

verus! {

/// Identifier correlating an emitted message with its eventual reply,
/// assigned by the scheduler, never by the driver.
#[derive(Clone, Copy, Debug, PartialEq, Eq, Hash, Structural)]
pub struct MessageId(pub u64);

/// Identifier of a process known to the scheduler.
#[derive(Clone, Copy, Debug, PartialEq, Eq, Hash, Structural)]
pub struct Pid(pub u64);

/// Opaque message payload bytes, encoded by the sender.
#[derive(Clone, Debug)]
pub struct EncodedMessage(pub Vec<u8>);

/// Event generated by a native driver for its scheduler.
pub enum NativeProgramEvent<TMsgIdWrite> {
    /// Request to emit a message on the named interface.
    Emit {
        /// Hash naming the interface to emit the message on.
        interface: [u8; 32],
        /// Present when the driver expects an answer: the scheduler must
        /// acknowledge the assigned [`MessageId`] through it, exactly once,
        /// before any reply can be delivered. Absent for fire-and-forget
        /// messages, which must never produce a reply delivery.
        message_id_write: Option<TMsgIdWrite>,
        /// Message to send.
        message: EncodedMessage,
    },
    /// Request to cancel a previously emitted, not yet answered message.
    CancelMessage {
        /// Identifier of the message to withdraw.
        message_id: MessageId,
    },
    /// Answer to a message previously delivered to this driver.
    Answer {
        /// Message being answered.
        message_id: MessageId,
        /// The answer, or an error marker if the message was invalid.
        answer: Result<EncodedMessage, ()>,
    },
}

/// One-shot capability through which the scheduler tells a driver which
/// [`MessageId`] was assigned to a message the driver emitted.
pub trait NativeProgramMessageIdWrite: Sized {
    /// Writes back the identifier of the emitted message. Called exactly
    /// once, before any matching reply is delivered.
    fn acknowledge(self, message_id: MessageId);
}

/// Write-back capability that discards the identifier, for drivers that
/// track their messages by other means.
#[derive(Clone, Copy, Debug, Default)]
pub struct DummyMessageIdWrite;

impl NativeProgramMessageIdWrite for DummyMessageIdWrite {
    fn acknowledge(self, _message_id: MessageId) {
    }
}

/// A native driver as its scheduler sees it. The scheduler polls
/// [`NativeProgram::next_event`] in a loop; a driver with nothing to report
/// returns nothing and is simply polled again later, it does not fail.
/// All calls arrive on one logical thread: state changes between two polls
/// never race.
pub trait NativeProgram {
    /// The write-back capability this driver hands out with emissions that
    /// expect an answer.
    type MessageIdWrite: NativeProgramMessageIdWrite;

    /// The next event the driver wants to report, or nothing if it is
    /// currently idle.
    fn next_event(&mut self) -> Option<NativeProgramEvent<Self::MessageIdWrite>>;

    /// A message arrived on an interface this driver has registered.
    /// `message_id` is absent when the sender expects no answer.
    fn interface_message(
        &mut self,
        interface: [u8; 32],
        message_id: Option<MessageId>,
        emitter_pid: Pid,
        message: EncodedMessage,
    );

    /// The process with the given identifier terminated; the driver should
    /// release any state tied to it.
    fn process_destroyed(&mut self, pid: Pid);

    /// The reply to a message this driver emitted with a write-back
    /// capability: a payload or an error marker, delivered at most once per
    /// identifier.
    fn message_response(&mut self, message_id: MessageId, response: Result<EncodedMessage, ()>);
}

/// Why the correlation ledger refused an operation.
#[derive(Clone, Copy, Debug, PartialEq, Eq, Structural)]
pub enum CorrelationError {
    /// The identifier is already awaiting a reply.
    IdInUse,
    /// The identifier is not awaiting a reply: it was never acknowledged,
    /// or its reply was already delivered, or it was cancelled.
    UnknownId,
}

/// The ledger after an emission is recorded: the identifier is added only
/// when the emission carries a write-back capability and the identifier is
/// fresh. A fire-and-forget emission leaves the ledger unchanged.
pub open spec fn record_t(s: Seq<u64>, write_back: bool, id: u64) -> Seq<u64> {
    if write_back && !s.contains(id) {
        s.push(id)
    } else {
        s
    }
}

/// The ledger with every occurrence of `id` removed, in the original order.
pub open spec fn without_id(s: Seq<u64>, id: u64) -> Seq<u64>
    decreases s.len(),
{
    if s.len() == 0 {
        Seq::empty()
    } else if s[0] == id {
        without_id(s.drop_first(), id)
    } else {
        seq![s[0]] + without_id(s.drop_first(), id)
    }
}

/// What removal means: `id` is gone and every other identifier is kept.
pub proof fn lemma_without_id(s: Seq<u64>, id: u64)
    ensures
        !without_id(s, id).contains(id),
        forall|x: u64| x != id ==> (without_id(s, id).contains(x) <==> s.contains(x)),
    decreases s.len(),
{
    if s.len() > 0 {
        lemma_without_id(s.drop_first(), id);
        assert forall|x: u64| x != id implies (without_id(s, id).contains(x) <==> s.contains(
            x,
        )) by {
            if s[0] == id {
                assert(s.contains(x) <==> s.drop_first().contains(x)) by {
                    if s.drop_first().contains(x) {
                        let w = choose|w: int|
                            0 <= w < s.drop_first().len() && s.drop_first()[w] == x;
                        assert(s[w + 1] == x);
                    } else if s.contains(x) {
                        let w = choose|w: int| 0 <= w < s.len() && s[w] == x;
                        assert(s.drop_first()[w - 1] == x);
                    }
                }
            } else {
                let rest = without_id(s.drop_first(), id);
                assert(without_id(s, id) == seq![s[0]] + rest);
                if s.contains(x) {
                    let w = choose|w: int| 0 <= w < s.len() && s[w] == x;
                    if w == 0 {
                        assert((seq![s[0]] + rest)[0] == x);
                    } else {
                        assert(s.drop_first()[w - 1] == x);
                        assert(s.drop_first().contains(x));
                        assert(rest.contains(x));
                        let v = choose|v: int| 0 <= v < rest.len() && rest[v] == x;
                        assert((seq![s[0]] + rest)[v + 1] == x);
                    }
                }
                if (seq![s[0]] + rest).contains(x) {
                    let w = choose|w: int| 0 <= w < (seq![s[0]] + rest).len() && (seq![s[0]]
                        + rest)[w] == x;
                    if w == 0 {
                        assert(s[0] == x);
                    } else {
                        assert(rest[w - 1] == x);
                        assert(rest.contains(x));
                        assert(s.drop_first().contains(x));
                        let v = choose|v: int|
                            0 <= v < s.drop_first().len() && s.drop_first()[v] == x;
                        assert(s[v + 1] == x);
                    }
                }
            }
        }
        assert(!without_id(s, id).contains(id)) by {
            if s[0] == id {
            } else {
                let rest = without_id(s.drop_first(), id);
                if (seq![s[0]] + rest).contains(id) {
                    let w = choose|w: int| 0 <= w < (seq![s[0]] + rest).len() && (seq![s[0]]
                        + rest)[w] == id;
                    if w == 0 {
                    } else {
                        assert(rest[w - 1] == id);
                    }
                }
            }
        }
    }
}

/// Appending an identifier and then removing `id` keeps the appended one
/// exactly when it differs from `id`.
proof fn lemma_without_id_push(s: Seq<u64>, x: u64, id: u64)
    ensures
        without_id(s.push(x), id) == if x == id {
            without_id(s, id)
        } else {
            without_id(s, id).push(x)
        },
    decreases s.len(),
{
    let pushed = s.push(x);
    if s.len() == 0 {
        assert(pushed[0] == x);
        assert(pushed.drop_first() =~= Seq::<u64>::empty());
        assert(without_id(Seq::<u64>::empty(), id) =~= Seq::<u64>::empty());
        if x == id {
            assert(without_id(pushed, id) =~= without_id(s, id));
        } else {
            assert(without_id(pushed, id) =~= without_id(s, id).push(x));
        }
    } else {
        assert(pushed[0] == s[0]);
        assert(pushed.drop_first() =~= s.drop_first().push(x));
        lemma_without_id_push(s.drop_first(), x, id);
        if x == id {
            assert(without_id(pushed, id) =~= without_id(s, id));
        } else {
            if s[0] != id {
                assert(seq![s[0]] + without_id(s.drop_first(), id).push(x) =~= (seq![s[0]]
                    + without_id(s.drop_first(), id)).push(x));
            }
            assert(without_id(pushed, id) =~= without_id(s, id).push(x));
        }
    }
}

/// Scheduler-side ledger of the message identifiers that await a reply:
/// exactly those that were emitted with a write-back capability,
/// acknowledged, and neither answered nor cancelled yet.
pub struct CorrelationTracker {
    awaiting: Vec<u64>,
}

impl View for CorrelationTracker {
    type V = Seq<u64>;

    closed spec fn view(&self) -> Seq<u64> {
        self.awaiting@
    }
}

impl CorrelationTracker {
    /// A ledger with no message outstanding.
    pub fn new() -> (r: CorrelationTracker)
        ensures
            r@ == Seq::<u64>::empty(),
    {
        let r = CorrelationTracker { awaiting: Vec::new() };
        proof {
            assert(r@ =~= Seq::<u64>::empty());
        }
        r
    }

    /// Whether the identifier awaits a reply.
    pub fn awaits(&self, id: MessageId) -> (r: bool)
        ensures
            r == self@.contains(id.0),
    {
        let mut k: usize = 0;
        while k < self.awaiting.len()
            invariant
                k <= self.awaiting@.len(),
                self@ == self.awaiting@,
                forall|j: int| 0 <= j < k ==> self.awaiting@[j] != id.0,
            decreases self.awaiting@.len() - k,
        {
            if self.awaiting[k] == id.0 {
                return true;
            }
            k += 1;
        }
        proof {
            if self@.contains(id.0) {
                let w = choose|w: int| 0 <= w < self@.len() && self@[w] == id.0;
            }
        }
        false
    }

    /// Records an emission the scheduler assigned `id` to. When the driver
    /// handed out a write-back capability, `id` starts awaiting a reply;
    /// it must be fresh. Without a capability the emission is
    /// fire-and-forget and the ledger does not change.
    pub fn record_emit(&mut self, write_back: bool, id: MessageId) -> (r: Result<
        (),
        CorrelationError,
    >)
        ensures
            final(self)@ == record_t(old(self)@, write_back, id.0),
            r is Ok <==> (!write_back || !old(self)@.contains(id.0)),
            r matches Err(e) ==> e == CorrelationError::IdInUse,
    {
        if !write_back {
            return Ok(());
        }
        if self.awaits(id) {
            return Err(CorrelationError::IdInUse);
        }
        self.awaiting.push(id.0);
        Ok(())
    }

    /// Settles the identifier: removes it from the ledger so that no
    /// second delivery can happen. Fails if the identifier does not await
    /// a reply — in particular for any fire-and-forget emission.
    pub fn deliver_response(&mut self, id: MessageId) -> (r: Result<(), CorrelationError>)
        ensures
            old(self)@.contains(id.0) ==> (r is Ok && final(self)@ == without_id(
                old(self)@,
                id.0,
            )),
            !old(self)@.contains(id.0) ==> (r matches Err(e) && e == CorrelationError::UnknownId
                && final(self)@ == old(self)@),
    {
        if !self.awaits(id) {
            return Err(CorrelationError::UnknownId);
        }
        self.remove_id(id);
        Ok(())
    }

    /// Withdraws a previously emitted, not yet answered message: its
    /// identifier stops awaiting a reply. Fails if the identifier does not
    /// await one.
    pub fn cancel_message(&mut self, id: MessageId) -> (r: Result<(), CorrelationError>)
        ensures
            old(self)@.contains(id.0) ==> (r is Ok && final(self)@ == without_id(
                old(self)@,
                id.0,
            )),
            !old(self)@.contains(id.0) ==> (r matches Err(e) && e == CorrelationError::UnknownId
                && final(self)@ == old(self)@),
    {
        if !self.awaits(id) {
            return Err(CorrelationError::UnknownId);
        }
        self.remove_id(id);
        Ok(())
    }

    /// Removes every occurrence of the identifier from the ledger.
    fn remove_id(&mut self, id: MessageId)
        ensures
            final(self)@ == without_id(old(self)@, id.0),
    {
        let ghost s0 = self.awaiting@;
        let mut kept: Vec<u64> = Vec::new();
        let mut k: usize = 0;
        while k < self.awaiting.len()
            invariant
                k <= self.awaiting@.len(),
                self.awaiting@ == s0,
                kept@ == without_id(s0.take(k as int), id.0),
            decreases self.awaiting@.len() - k,
        {
            let x = self.awaiting[k];
            if x != id.0 {
                kept.push(x);
            }
            proof {
                lemma_without_id_push(s0.take(k as int), s0[k as int], id.0);
                assert(s0.take(k + 1) =~= s0.take(k as int).push(s0[k as int]));
            }
            k += 1;
        }
        proof {
            assert(s0.take(s0.len() as int) =~= s0);
        }
        self.awaiting = kept;
    }

    /// Applies one driver event to the ledger, acknowledging the assigned
    /// identifier through the event's write-back capability when there is
    /// one. An emission without a capability and an answer to an inbound
    /// message leave the ledger unchanged.
    pub fn process_event<T: NativeProgramMessageIdWrite>(
        &mut self,
        ev: NativeProgramEvent<T>,
        assigned: MessageId,
    ) -> (r: Result<(), CorrelationError>)
        ensures
            ev matches NativeProgramEvent::Emit { message_id_write: Some(_), .. } ==> (
            final(self)@ == record_t(old(self)@, true, assigned.0) && (r is Ok
                <==> !old(self)@.contains(assigned.0))),
            ev matches NativeProgramEvent::Emit { message_id_write: None, .. } ==> (final(self)@
                == old(self)@ && r is Ok),
            ev matches NativeProgramEvent::CancelMessage { message_id } ==> (
            if old(self)@.contains(message_id.0) {
                final(self)@ == without_id(old(self)@, message_id.0) && r is Ok
            } else {
                final(self)@ == old(self)@ && (r matches Err(e2) && e2
                    == CorrelationError::UnknownId)
            }),
            ev matches NativeProgramEvent::Answer { .. } ==> (final(self)@ == old(self)@ && r
                is Ok),
    {
        match ev {
            NativeProgramEvent::Emit { message_id_write: Some(w), .. } => {
                match self.record_emit(true, assigned) {
                    Ok(_) => {
                        w.acknowledge(assigned);
                        Ok(())
                    },
                    Err(e) => Err(e),
                }
            },
            NativeProgramEvent::Emit { message_id_write: None, .. } => self.record_emit(
                false,
                assigned,
            ),
            NativeProgramEvent::CancelMessage { message_id } => self.cancel_message(message_id),
            NativeProgramEvent::Answer { .. } => Ok(()),
        }
    }
}

/// A fire-and-forget emission — one without a write-back capability —
/// leaves the ledger unchanged, so its identifier never awaits a reply and
/// [`CorrelationTracker::deliver_response`] can never succeed for it.
pub proof fn lemma_fire_and_forget(s: Seq<u64>, id: u64)
    requires
        !s.contains(id),
    ensures
        record_t(s, false, id) == s,
        !record_t(s, false, id).contains(id),
{
}

/// A delivered or cancelled identifier stops awaiting a reply: a second
/// delivery for the same identifier must fail.
pub proof fn lemma_response_settles(s: Seq<u64>, id: u64)
    ensures
        !without_id(s, id).contains(id),
{
    lemma_without_id(s, id);
}

} // verus!
