//! The decisions of a connection handler. The caller owns the substreams and the clock; at each
//! step it asks what to do and reports what happened.

use vstd::prelude::*;
use crate::bitswap::{Core, Queues};
use crate::block_provider::BlockProvider;
use crate::schema::Message;

verus! {

/// "Soft" maximum of pending blocks and presences per connection: inbound messages are read
/// only while fewer are pending. One message may carry the count well past it.
pub const SOFT_MAX_PENDING: usize = 1000;

/// Time to keep a connection alive after it becomes idle, in milliseconds.
pub const IDLE_KEEP_ALIVE_MS: u64 = 5000;

/// Most inbound substreams open at once on one connection; more are reset.
pub const MAX_SUBSTREAMS: usize = 4;

/// Largest inbound message; a substream that sends a larger one is reset.
pub const MAX_MESSAGE_SIZE: usize = 32 * 1024;

/// The outbound substream slot.
#[derive(Clone, Copy, Debug, PartialEq, Eq, Structural)]
pub enum OutSubstream {
    /// No substream open.
    Closed,
    /// A substream was requested.
    Opening,
    /// A substream is ready to write on.
    Idle,
    /// A write is in flight.
    Writing,
    /// Opening the substream failed; the connection closes next.
    UpgradeError,
}

/// What the caller does with the outbound slot in this step.
#[derive(Clone, Copy, Debug, PartialEq, Eq, Structural)]
pub enum OutAction {
    /// Nothing to do.
    Wait,
    /// Ask the connection for an outbound substream.
    RequestSubstream,
    /// Build a message and, if there is one, start writing it.
    BuildMessage,
    /// Poll the write in flight.
    PollWrite,
    /// Close the connection with the upgrade error.
    CloseUpgrade,
}

/// How long the connection is to be kept alive.
#[derive(Clone, Copy, Debug, PartialEq, Eq, Structural)]
pub enum KeepAlive {
    Yes,
    /// Until the given time, in milliseconds.
    Until(u64),
}

/// Whether to read an inbound message now: only while fewer than the soft maximum are pending.
pub fn should_read_inbound(num_pending: usize) -> (r: bool)
    ensures
        r == (num_pending < SOFT_MAX_PENDING),
{
    num_pending < SOFT_MAX_PENDING
}

/// The outbound step: the new slot state and what the caller must do.
pub fn outbound_step(state: OutSubstream, any_pending: bool) -> (r: (OutSubstream, OutAction))
    ensures
        r == match state {
            OutSubstream::Closed => if any_pending {
                (OutSubstream::Opening, OutAction::RequestSubstream)
            } else {
                (OutSubstream::Closed, OutAction::Wait)
            },
            OutSubstream::Opening => (OutSubstream::Opening, OutAction::Wait),
            OutSubstream::Idle => (OutSubstream::Idle, OutAction::BuildMessage),
            OutSubstream::Writing => (OutSubstream::Writing, OutAction::PollWrite),
            OutSubstream::UpgradeError => (OutSubstream::UpgradeError, OutAction::CloseUpgrade),
        },
{
    match state {
        OutSubstream::Closed => if any_pending {
            (OutSubstream::Opening, OutAction::RequestSubstream)
        } else {
            (OutSubstream::Closed, OutAction::Wait)
        },
        OutSubstream::Opening => (OutSubstream::Opening, OutAction::Wait),
        OutSubstream::Idle => (OutSubstream::Idle, OutAction::BuildMessage),
        OutSubstream::Writing => (OutSubstream::Writing, OutAction::PollWrite),
        OutSubstream::UpgradeError => (OutSubstream::UpgradeError, OutAction::CloseUpgrade),
    }
}

/// The keep-alive once a poll has nothing more to do: kept while replies are owed or being
/// written; otherwise an idle deadline is set once, `IDLE_KEEP_ALIVE_MS` after `now_ms`.
pub fn keep_alive_after_poll(any_pending: bool, state: OutSubstream, current: KeepAlive, now_ms: u64) -> (r: KeepAlive)
    ensures
        any_pending || state == OutSubstream::Writing ==> r == KeepAlive::Yes,
        !(any_pending || state == OutSubstream::Writing) ==> r == match current {
            KeepAlive::Until(t) => KeepAlive::Until(t),
            KeepAlive::Yes => KeepAlive::Until(
                if now_ms + IDLE_KEEP_ALIVE_MS > u64::MAX { u64::MAX } else { (now_ms + IDLE_KEEP_ALIVE_MS) as u64 },
            ),
        },
{
    if any_pending || state == OutSubstream::Writing {
        KeepAlive::Yes
    } else {
        match current {
            KeepAlive::Until(t) => KeepAlive::Until(t),
            KeepAlive::Yes => KeepAlive::Until(now_ms.saturating_add(IDLE_KEEP_ALIVE_MS)),
        }
    }
}

/// Whether a new inbound substream is taken while `open` are open.
pub fn admit_inbound_substream(open: usize) -> (r: bool)
    ensures
        r == (open < MAX_SUBSTREAMS),
{
    open < MAX_SUBSTREAMS
}

/// Why a connection closes.
#[derive(Clone, Copy, Debug, PartialEq, Eq, Structural)]
pub enum Error {
    /// Writing on the outbound substream failed.
    Io,
    /// Opening the outbound substream failed.
    Upgrade,
}

/// A connection event reported by the caller.
#[derive(Clone, Copy, Debug, PartialEq, Eq, Structural)]
pub enum ConnectionEvent {
    /// The requested outbound substream is ready.
    FullyNegotiatedOutbound,
    /// The requested outbound substream could not be opened.
    DialUpgradeError,
    /// An inbound substream could not be opened (only logged).
    ListenUpgradeError,
    /// The remote address changed (ignored).
    AddressChange,
}

/// What the caller does with the outbound substream after a step.
#[derive(Clone, Debug)]
pub enum OutCommand {
    /// Nothing to do.
    Wait,
    /// Ask the connection for an outbound substream.
    RequestSubstream,
    /// Write this message, length-prefixed, on the idle substream, then report the result.
    Write(Message),
    /// Poll the write in flight.
    PollWrite,
    /// Close the connection.
    Close(Error),
}

/// One connection's Bitswap handler: the responder, the outbound slot and the keep-alive.
pub struct Handler<P: BlockProvider> {
    responder: Core<P>,
    out_substream: OutSubstream,
    /// `Until` if idle, `Yes` otherwise.
    keep_alive: KeepAlive,
}

impl<P: BlockProvider> Handler<P> {
    pub closed spec fn queues(&self) -> Queues {
        self.responder.queues()
    }

    pub closed spec fn out_state(&self) -> OutSubstream {
        self.out_substream
    }

    pub closed spec fn keep_alive_spec(&self) -> KeepAlive {
        self.keep_alive
    }

    pub open spec fn wf(&self) -> bool {
        crate::bitswap::queues_wf(self.queues())
    }

    pub fn new(peer_id: Vec<u8>, block_provider: P) -> (r: Self)
        ensures
            r.wf(),
            r.queues() == crate::bitswap::empty_queues(),
            r.out_state() == OutSubstream::Closed,
            r.keep_alive_spec() == KeepAlive::Yes,
    {
        Handler {
            responder: Core::new(peer_id, block_provider),
            out_substream: OutSubstream::Closed,
            // Set properly by the first poll.
            keep_alive: KeepAlive::Yes,
        }
    }

    pub fn responder(&self) -> (r: &Core<P>)
        ensures
            r.queues() == self.queues(),
    {
        &self.responder
    }

    /// How long the connection is to be kept alive.
    pub fn connection_keep_alive(&self) -> (r: KeepAlive)
        ensures
            r == self.keep_alive_spec(),
    {
        self.keep_alive
    }

    /// Whether the caller should read an inbound message now (the backpressure gate).
    pub fn wants_inbound(&self) -> (r: bool)
        ensures
            r == (self.queues().presences.len() + self.queues().blocks.len() < SOFT_MAX_PENDING),
    {
        should_read_inbound(self.responder.num_pending())
    }

    /// Handles an inbound message and resets the idle timeout.
    pub fn on_inbound_message(&mut self, message: Message)
        requires
            old(self).wf(),
        ensures
            final(self).wf(),
            final(self).out_state() == old(self).out_state(),
            final(self).keep_alive_spec() == KeepAlive::Yes,
            message.wantlist is None ==> final(self).queues() == old(self).queues(),
            message.wantlist matches Some(wl) ==> exists|haves: Seq<bool>|
                haves.len() == wl.entries@.len() && #[trigger] crate::bitswap::apply_wantlist(
                    old(self).queues(),
                    wl,
                    haves,
                ) == final(self).queues(),
    {
        let ghost q0 = self.queues();
        let ghost wantlist = message.wantlist;
        self.responder.handle_message(message);
        self.keep_alive = KeepAlive::Yes;
        proof {
            if let Some(wl) = wantlist {
                let h = choose|h: Seq<bool>|
                    h.len() == wl.entries@.len() && #[trigger] crate::bitswap::apply_wantlist(q0, wl, h)
                        == self.responder.queues();
                assert(crate::bitswap::apply_wantlist(q0, wl, h) == self.queues());
            }
        }
    }

    /// The outbound step. From an idle substream it builds a message and, if there is one,
    /// starts writing it.
    pub fn outbound_step(&mut self) -> (r: OutCommand)
        requires
            old(self).wf(),
        ensures
            final(self).wf(),
            final(self).keep_alive_spec() == old(self).keep_alive_spec(),
            match old(self).out_state() {
                OutSubstream::Closed => if old(self).queues().presences.len() > 0 || old(self).queues().blocks.len() > 0 {
                    final(self).out_state() == OutSubstream::Opening && r is RequestSubstream
                } else {
                    final(self).out_state() == OutSubstream::Closed && r is Wait
                },
                OutSubstream::Opening => final(self).out_state() == OutSubstream::Opening && r is Wait,
                OutSubstream::Idle => match r {
                    OutCommand::Write(_) => final(self).out_state() == OutSubstream::Writing,
                    OutCommand::Wait => final(self).out_state() == OutSubstream::Idle,
                    _ => false,
                },
                OutSubstream::Writing => final(self).out_state() == OutSubstream::Writing && r is PollWrite,
                OutSubstream::UpgradeError => final(self).out_state() == OutSubstream::UpgradeError
                    && r == OutCommand::Close(Error::Upgrade),
            },
            old(self).out_state() != OutSubstream::Idle ==> final(self).queues() == old(self).queues(),
            old(self).out_state() == OutSubstream::Idle && old(self).queues().presences.len() == 0
                && old(self).queues().blocks.len() == 0 ==> r is Wait && final(self).queues() == old(self).queues(),
            old(self).out_state() == OutSubstream::Idle && old(self).queues().presences.len() > 0 ==> r is Write,
    {
        let (state, action) = outbound_step(self.out_substream, self.responder.any_pending());
        self.out_substream = state;
        match action {
            OutAction::Wait => OutCommand::Wait,
            OutAction::RequestSubstream => OutCommand::RequestSubstream,
            OutAction::BuildMessage => match self.responder.try_build_message() {
                Some(m) => {
                    self.out_substream = OutSubstream::Writing;
                    OutCommand::Write(m)
                },
                None => OutCommand::Wait,
            },
            OutAction::PollWrite => OutCommand::PollWrite,
            OutAction::CloseUpgrade => OutCommand::Close(Error::Upgrade),
        }
    }

    /// The write in flight finished: on success the substream is idle again, on failure the
    /// connection closes.
    pub fn on_write_done(&mut self, ok: bool) -> (r: Option<Error>)
        requires
            old(self).wf(),
        ensures
            final(self).wf(),
            final(self).queues() == old(self).queues(),
            final(self).keep_alive_spec() == old(self).keep_alive_spec(),
            ok ==> r is None && final(self).out_state() == OutSubstream::Idle,
            !ok ==> r == Some(Error::Io) && final(self).out_state() == old(self).out_state(),
    {
        if ok {
            self.out_substream = OutSubstream::Idle;
            None
        } else {
            Some(Error::Io)
        }
    }

    /// A connection event: a negotiated outbound substream becomes idle; a failed one closes
    /// the connection at the next step; the others change nothing.
    pub fn on_connection_event(&mut self, event: ConnectionEvent)
        requires
            old(self).wf(),
        ensures
            final(self).wf(),
            final(self).queues() == old(self).queues(),
            final(self).keep_alive_spec() == old(self).keep_alive_spec(),
            final(self).out_state() == match event {
                ConnectionEvent::FullyNegotiatedOutbound => OutSubstream::Idle,
                ConnectionEvent::DialUpgradeError => OutSubstream::UpgradeError,
                _ => old(self).out_state(),
            },
    {
        match event {
            ConnectionEvent::FullyNegotiatedOutbound => self.out_substream = OutSubstream::Idle,
            ConnectionEvent::DialUpgradeError => self.out_substream = OutSubstream::UpgradeError,
            ConnectionEvent::ListenUpgradeError => {},
            ConnectionEvent::AddressChange => {},
        }
    }

    /// Ends a poll that has nothing more to do: sets the keep-alive.
    pub fn finish_poll(&mut self, now_ms: u64)
        requires
            old(self).wf(),
        ensures
            final(self).wf(),
            final(self).queues() == old(self).queues(),
            final(self).out_state() == old(self).out_state(),
            ({
                let busy = old(self).queues().presences.len() > 0 || old(self).queues().blocks.len() > 0
                    || old(self).out_state() == OutSubstream::Writing;
                &&& busy ==> final(self).keep_alive_spec() == KeepAlive::Yes
                &&& !busy && old(self).keep_alive_spec() is Until ==> final(self).keep_alive_spec()
                    == old(self).keep_alive_spec()
                &&& !busy && old(self).keep_alive_spec() is Yes ==> final(self).keep_alive_spec()
                    == KeepAlive::Until(
                    if now_ms + IDLE_KEEP_ALIVE_MS > u64::MAX { u64::MAX } else { (now_ms + IDLE_KEEP_ALIVE_MS) as u64 },
                )
                &&& !busy && old(self).keep_alive_spec() is Yes && now_ms + IDLE_KEEP_ALIVE_MS <= u64::MAX
                    ==> final(self).keep_alive_spec() == KeepAlive::Until((now_ms + IDLE_KEEP_ALIVE_MS) as u64)
            }),
    {
        self.keep_alive = keep_alive_after_poll(self.responder.any_pending(), self.out_substream, self.keep_alive, now_ms);
    }
}

/// Makes one handler per connection, each serving from the same block provider.
pub struct Behaviour<P: BlockProvider + Clone> {
    block_provider: P,
}

impl<P: BlockProvider + Clone> Behaviour<P> {
    /// The block provider that new handlers serve from.
    pub closed spec fn provider(&self) -> P {
        self.block_provider
    }

    pub fn new(block_provider: P) -> (r: Self)
        ensures
            r.provider() == block_provider,
    {
        Behaviour { block_provider }
    }

    /// The handler of a new connection with `peer_id`.
    pub fn new_handler(&self, peer_id: Vec<u8>) -> (r: Handler<P>)
        ensures
            r.wf(),
            r.queues() == crate::bitswap::empty_queues(),
            r.out_state() == OutSubstream::Closed,
            r.keep_alive_spec() == KeepAlive::Yes,
    {
        Handler::new(peer_id, self.block_provider.clone())
    }
}

/// The count of open inbound substreams of one connection.
pub struct InSubstreams {
    open: usize,
}

impl InSubstreams {
    pub closed spec fn open_spec(&self) -> nat {
        self.open as nat
    }

    pub fn new() -> (r: Self)
        ensures
            r.open_spec() == 0,
    {
        InSubstreams { open: 0 }
    }

    /// Number of open inbound substreams.
    pub fn len(&self) -> (r: usize)
        ensures
            r == self.open_spec(),
    {
        self.open
    }

    /// A new inbound substream: taken (`true`) while under the limit, otherwise to be reset.
    pub fn push(&mut self) -> (r: bool)
        requires
            old(self).open_spec() <= MAX_SUBSTREAMS,
        ensures
            r == (old(self).open_spec() < MAX_SUBSTREAMS),
            r ==> final(self).open_spec() == old(self).open_spec() + 1,
            !r ==> final(self).open_spec() == old(self).open_spec(),
            final(self).open_spec() <= MAX_SUBSTREAMS,
    {
        if admit_inbound_substream(self.open) {
            self.open = self.open + 1;
            true
        } else {
            false
        }
    }

    /// An inbound substream ended (an error, or an oversized message).
    pub fn remove(&mut self)
        ensures
            final(self).open_spec() == if old(self).open_spec() == 0 { 0 } else { (old(self).open_spec() - 1) as nat },
    {
        if self.open > 0 {
            self.open = self.open - 1;
        }
    }
}

} // verus!
