use vstd::prelude::*;
use crate::registry::Registry;
use crate::store::SnapshotStore;

verus! {

/// Lifecycle of one subscriber's session. Replay is reachable only through
/// the one transition out of `Connecting`, so it happens at most once per
/// session.
#[derive(Clone, Copy, Debug, PartialEq, Eq, Structural)]
pub enum SessionState {
    Connecting,
    SnapshotReplay,
    Streaming,
    Closing,
    Closed,
}

/// One inbound frame from the subscriber's transport, reduced to what the
/// session protocol distinguishes.
#[derive(Debug, PartialEq, Eq)]
pub enum Frame {
    /// The subscriber asked to close the channel.
    Close,
    /// A ping carrying its payload.
    Ping(Vec<u8>),
    /// Any data frame: the channel is read-only for subscribers.
    Data,
    /// The transport failed while reading.
    ReadError,
}

/// What the session must do in reaction to one inbound frame.
#[derive(Debug, PartialEq, Eq)]
pub enum FrameAction {
    /// End the session (an ordinary disconnect, never escalated).
    EndSession,
    /// Answer immediately with a pong carrying the same payload.
    SendPong(Vec<u8>),
    /// Ignore the frame.
    Ignore,
}

/// Decides the reaction to one inbound frame: a close frame or a transport
/// error ends the session, a ping is answered with a pong, and data frames
/// are ignored.
pub fn on_frame(f: Frame) -> (a: FrameAction)
    ensures
        a == (match f {
            Frame::Close => FrameAction::EndSession,
            Frame::Ping(d) => FrameAction::SendPong(d),
            Frame::Data => FrameAction::Ignore,
            Frame::ReadError => FrameAction::EndSession,
        }),
{
    match f {
        Frame::Close => FrameAction::EndSession,
        Frame::Ping(d) => FrameAction::SendPong(d),
        Frame::Data => FrameAction::Ignore,
        Frame::ReadError => FrameAction::EndSession,
    }
}

/// Per-subscriber lifecycle: registration, at-most-one snapshot replay,
/// streaming, deregistration.
pub struct Session {
    id: u64,
    state: SessionState,
}

impl Session {
    pub closed spec fn id_spec(self) -> u64 {
        self.id
    }

    pub closed spec fn state_spec(self) -> SessionState {
        self.state
    }

    /// Replay is available exactly in the connecting state.
    pub open spec fn can_replay(self) -> bool {
        self.state_spec() == SessionState::Connecting
    }

    pub fn id(&self) -> (id: u64)
        ensures
            id == self.id_spec(),
    {
        self.id
    }

    pub fn state(&self) -> (s: SessionState)
        ensures
            s == self.state_spec(),
    {
        self.state
    }

    /// Accepts a subscriber: allocates its id and registers it immediately,
    /// so it starts receiving live broadcasts before replay.
    pub fn connect(reg: &mut Registry) -> (s: Session)
        requires
            old(reg).wf(),
            old(reg).next_id_spec() < u64::MAX,
        ensures
            final(reg).wf(),
            s.id_spec() == old(reg).next_id_spec(),
            !old(reg)@.dom().contains(s.id_spec()),
            final(reg)@ == old(reg)@.insert(s.id_spec(), Seq::<Seq<char>>::empty()),
            final(reg).next_id_spec() == old(reg).next_id_spec() + 1,
            s.state_spec() == SessionState::Connecting,
    {
        let id = reg.next_id();
        reg.add(id);
        Session { id, state: SessionState::Connecting }
    }

    /// The at-most-once snapshot replay. If the store is complete, returns
    /// every stored row in stored order for the caller to send; if not yet
    /// complete, replay is skipped entirely and, since the session leaves
    /// `Connecting` for good, never retried later.
    pub fn replay_rows(&mut self, store: &SnapshotStore) -> (rows: Vec<String>)
        requires
            old(self).can_replay(),
        ensures
            final(self).id_spec() == old(self).id_spec(),
            final(self).state_spec() == SessionState::SnapshotReplay,
            !final(self).can_replay(),
            store@.complete ==> crate::rows::views_of(rows@) == store@.rows,
            !store@.complete ==> rows@.len() == 0,
    {
        self.state = SessionState::SnapshotReplay;
        if store.is_complete() {
            store.current()
        } else {
            Vec::new()
        }
    }

    /// Replay is done (sent or skipped); the streaming loops take over.
    pub fn start_streaming(&mut self)
        requires
            old(self).state_spec() == SessionState::SnapshotReplay,
        ensures
            final(self).id_spec() == old(self).id_spec(),
            final(self).state_spec() == SessionState::Streaming,
            !final(self).can_replay(),
    {
        self.state = SessionState::Streaming;
    }

    /// Either loop ended: the session starts shutting down.
    pub fn begin_close(&mut self)
        ensures
            final(self).id_spec() == old(self).id_spec(),
            final(self).state_spec() == SessionState::Closing,
            !final(self).can_replay(),
    {
        self.state = SessionState::Closing;
    }

    /// Deregisters the subscriber: it is ineligible for every subsequent
    /// `publish`.
    pub fn finish_close(&mut self, reg: &mut Registry)
        requires
            old(reg).wf(),
        ensures
            final(self).id_spec() == old(self).id_spec(),
            final(self).state_spec() == SessionState::Closed,
            !final(self).can_replay(),
            final(reg).wf(),
            final(reg)@ == old(reg)@.remove(old(self).id_spec()),
            final(reg).next_id_spec() == old(reg).next_id_spec(),
    {
        self.state = SessionState::Closed;
        reg.remove(self.id);
    }
}

} // verus!
