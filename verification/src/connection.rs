//! One connection to a peer: its handshake, its queue of requests, and what
//! becomes of them when the connection ends.
//!
//! The connection is a state machine. Its driver owns the socket and the
//! clock; it reports what happened (a frame arrived, the socket closed, time
//! passed, somebody submitted a request) and carries out the effects that
//! the state machine answers with.

use crate::codec::{Block, GetBlock, Handshake, Message};
use crate::error::ProtocolError;
use crate::filemap::FileMap;
use vstd::prelude::*;

verus! {

/// Seconds that a peer is given to send its handshake.
pub const HANDSHAKE_TIMEOUT_SECS: u64 = 10;

/// State of a connection.
#[derive(Debug, Clone, Copy, PartialEq, Eq, Structural)]
pub enum ConnState {
    /// The socket is not connected yet.
    Connecting,
    /// The local handshake was sent; the peer's has not arrived.
    AwaitingHandshake,
    /// Handshakes were exchanged; requests are served.
    Ready,
    /// The connection has ended.
    Closed,
}

/// What a caller may ask of the peer.
#[derive(Debug, Clone, Copy, PartialEq, Eq, Structural)]
pub enum Request {
    /// The manifest of a resource.
    Meta { hash: u128 },
    /// A block.
    Block(GetBlock),
}

/// A request that waits for its answer, and the ticket under which its
/// caller waits for it.
#[derive(Debug, Clone, Copy, PartialEq, Eq, Structural)]
pub struct Pending {
    pub ticket: u64,
    pub request: Request,
}

/// What the peer answered to a request.
#[derive(Debug, Clone, PartialEq, Eq)]
pub enum Answer {
    Block(Block),
    Meta { hash: u128, files: Vec<FileMap> },
    NotFound { hash: u128 },
}

/// What the driver of a connection has to do.
#[derive(Debug, Clone, PartialEq, Eq)]
pub enum Effect {
    /// Write the message to the socket.
    Send(Message),
    /// Hand the answer to the caller that holds the ticket.
    Deliver { ticket: u64, answer: Answer },
    /// Tell the caller that holds the ticket that its request has failed.
    Fail { ticket: u64, error: ProtocolError },
    /// The peer asks for this: answer it.
    Serve(Request),
    /// Close the socket.
    Close,
}

/// The message that carries a request.
pub open spec fn request_message(request: Request) -> Message {
    match request {
        Request::Meta { hash } => Message::GetMeta { hash },
        Request::Block(get) => Message::GetBlock(get),
    }
}

/// One failure for every request of `queue`, in order.
pub open spec fn failures(queue: Seq<Pending>, error: ProtocolError) -> Seq<Effect> {
    Seq::new(queue.len(), |i: int| Effect::Fail { ticket: queue[i].ticket, error })
}

/// The time `delay` seconds after `now`, or the last second there is.
pub open spec fn later(now: u64, delay: u64) -> u64 {
    if now + delay > u64::MAX {
        u64::MAX
    } else {
        (now + delay) as u64
    }
}

/// Mathematical state of a connection.
pub struct ConnectionView {
    pub state: ConnState,
    /// The handshake that this side sends.
    pub local: Handshake,
    /// The handshake that the peer sent.
    pub peer: Option<Handshake>,
    /// When the wait for the peer's handshake ends.
    pub deadline: u64,
    /// When the last frame arrived.
    pub last_seen: u64,
    /// The requests that wait for their answer, oldest first. Once the
    /// connection is ready, the first of them is the one that was sent.
    pub queue: Seq<Pending>,
    /// Why the connection ended.
    pub closed_by: Option<ProtocolError>,
}

impl ConnectionView {
    /// The request at the head of the queue is sent, if there is one.
    pub open spec fn dispatch_head(self) -> Seq<Effect> {
        if self.queue.len() > 0 {
            seq![Effect::Send(request_message(self.queue[0].request))]
        } else {
            Seq::empty()
        }
    }

    /// The connection ends because of `error`: every waiting request fails
    /// with it, in the order of submission, and the socket is closed. A
    /// ready connection that this side ends says goodbye first.
    pub open spec fn shut(self, error: ProtocolError) -> (ConnectionView, Seq<Effect>) {
        let farewell = if self.state == ConnState::Ready && error == ProtocolError::DisconnectByMe {
            seq![Effect::Send(Message::Bye)]
        } else {
            Seq::empty()
        };
        (
            ConnectionView {
                state: ConnState::Closed,
                closed_by: Some(error),
                queue: Seq::empty(),
                ..self
            },
            farewell + failures(self.queue, error).push(Effect::Close),
        )
    }

    /// The peer answered: the answer goes to the oldest request, and the
    /// next request is sent. An answer that nobody waits for is dropped.
    pub open spec fn answer(self, answer: Answer) -> (ConnectionView, Seq<Effect>) {
        if self.queue.len() == 0 {
            (self, Seq::empty())
        } else {
            let next = ConnectionView { queue: self.queue.drop_first(), ..self };
            (
                next,
                seq![Effect::Deliver { ticket: self.queue[0].ticket, answer }]
                    + next.dispatch_head(),
            )
        }
    }

    /// The socket is connected: the local handshake is sent and the wait for
    /// the peer's handshake begins.
    pub open spec fn after_connect(self, now: u64) -> (ConnectionView, Seq<Effect>) {
        if self.state == ConnState::Connecting {
            (
                ConnectionView {
                    state: ConnState::AwaitingHandshake,
                    deadline: later(now, HANDSHAKE_TIMEOUT_SECS),
                    last_seen: now,
                    ..self
                },
                seq![Effect::Send(Message::Handshake(self.local))],
            )
        } else {
            (self, Seq::empty())
        }
    }

    /// A caller submits a request: it joins the queue, and is sent at once
    /// if the connection is ready and nothing else waits. On a connection
    /// that has ended it fails with the error that ended the connection.
    pub open spec fn after_submit(self, ticket: u64, request: Request) -> (
        ConnectionView,
        Seq<Effect>,
    ) {
        let queued = ConnectionView { queue: self.queue.push(Pending { ticket, request }), ..self };
        match self.state {
            ConnState::Closed => (
                self,
                seq![
                    Effect::Fail {
                        ticket,
                        error: match self.closed_by {
                            Some(error) => error,
                            None => ProtocolError::Disconnect,
                        },
                    },
                ],
            ),
            ConnState::Ready => (
                queued,
                if self.queue.len() == 0 {
                    seq![Effect::Send(request_message(request))]
                } else {
                    Seq::empty()
                },
            ),
            _ => (queued, Seq::empty()),
        }
    }

    /// Time has passed: a wait for the handshake that has reached its
    /// deadline ends the connection.
    pub open spec fn after_tick(self, now: u64) -> (ConnectionView, Seq<Effect>) {
        if self.state == ConnState::AwaitingHandshake && now >= self.deadline {
            self.shut(ProtocolError::HandshakeTimeout)
        } else {
            (self, Seq::empty())
        }
    }

    /// A frame arrived.
    pub open spec fn after_frame(self, message: Message, now: u64) -> (ConnectionView, Seq<Effect>) {
        let seen = ConnectionView { last_seen: now, ..self };
        match self.state {
            ConnState::AwaitingHandshake => if now >= self.deadline {
                seen.shut(ProtocolError::HandshakeTimeout)
            } else {
                match message {
                    Message::Handshake(peer) => if peer.version == self.local.version {
                        let ready = ConnectionView {
                            state: ConnState::Ready,
                            peer: Some(peer),
                            ..seen
                        };
                        (ready, ready.dispatch_head())
                    } else {
                        seen.shut(ProtocolError::InvalidHandshake)
                    },
                    _ => seen.shut(ProtocolError::MissingHandshake),
                }
            },
            ConnState::Ready => match message {
                Message::Block(block) => seen.answer(Answer::Block(block)),
                Message::Meta { hash, files } => seen.answer(Answer::Meta { hash, files }),
                Message::NotFound { hash } => seen.answer(Answer::NotFound { hash }),
                Message::GetBlock(get) => (seen, seq![Effect::Serve(Request::Block(get))]),
                Message::GetMeta { hash } => (seen, seq![Effect::Serve(Request::Meta { hash })]),
                Message::Bye => seen.shut(ProtocolError::Disconnect),
                Message::Handshake(peer) => (seen, Seq::empty()),
            },
            _ => (self, Seq::empty()),
        }
    }

    /// Bytes arrived that are no frame.
    pub open spec fn after_malformed(self, now: u64) -> (ConnectionView, Seq<Effect>) {
        let seen = ConnectionView { last_seen: now, ..self };
        match self.state {
            ConnState::AwaitingHandshake => if now >= self.deadline {
                seen.shut(ProtocolError::HandshakeTimeout)
            } else {
                seen.shut(ProtocolError::InvalidHandshake)
            },
            ConnState::Ready => seen.shut(ProtocolError::DisconnectByMe),
            _ => (self, Seq::empty()),
        }
    }

    /// The socket reached its end or was reset.
    pub open spec fn after_socket_closed(self) -> (ConnectionView, Seq<Effect>) {
        if self.state == ConnState::Closed {
            (self, Seq::empty())
        } else {
            self.shut(ProtocolError::Disconnect)
        }
    }

    /// This side ends the connection.
    pub open spec fn after_close(self) -> (ConnectionView, Seq<Effect>) {
        if self.state == ConnState::Closed {
            (self, Seq::empty())
        } else {
            self.shut(ProtocolError::DisconnectByMe)
        }
    }
}

/// When a connection ends, nothing is left waiting: every request of the
/// queue is told the error that ended the connection, in the order of
/// submission, and the queue is empty afterwards.
pub proof fn lemma_shut_fails_every_request(s: ConnectionView, error: ProtocolError)
    ensures
        s.shut(error).0.state == ConnState::Closed,
        s.shut(error).0.closed_by == Some(error),
        s.shut(error).0.queue.len() == 0,
        forall|i: int|
            0 <= i < s.queue.len() ==> s.shut(error).1.contains(
                #[trigger] failures(s.queue, error)[i],
            ),
        ({
            let effects = s.shut(error).1;
            let first = effects.len() - s.queue.len() - 1;
            &&& 0 <= first <= 1
            &&& effects.subrange(first, first + s.queue.len()) == failures(s.queue, error)
            &&& effects.last() == Effect::Close
        }),
{
    let effects = s.shut(error).1;
    let offset = effects.len() - s.queue.len() - 1;
    assert forall|i: int| 0 <= i < s.queue.len() implies effects.contains(
        #[trigger] failures(s.queue, error)[i],
    ) by {
        assert(effects[offset + i] == failures(s.queue, error)[i]);
    }
}

/// The wait for the peer's handshake is bounded: from the deadline on, the
/// next report of any kind ends the connection with a handshake timeout and
/// fails every waiting request with it; before the deadline, the passing of
/// time changes nothing.
pub proof fn lemma_handshake_wait_is_bounded(s: ConnectionView, message: Message, now: u64)
    requires
        s.state == ConnState::AwaitingHandshake,
    ensures
        now >= s.deadline ==> s.after_tick(now) == s.shut(ProtocolError::HandshakeTimeout),
        now >= s.deadline ==> s.after_tick(now).0.state == ConnState::Closed && s.after_tick(
            now,
        ).0.closed_by == Some(ProtocolError::HandshakeTimeout),
        now >= s.deadline ==> s.after_frame(message, now).0.state == ConnState::Closed
            && s.after_frame(message, now).0.closed_by == Some(ProtocolError::HandshakeTimeout)
            && s.after_frame(message, now).1 == s.shut(ProtocolError::HandshakeTimeout).1,
        now >= s.deadline ==> s.after_malformed(now).0.state == ConnState::Closed
            && s.after_malformed(now).0.closed_by == Some(ProtocolError::HandshakeTimeout)
            && s.after_malformed(now).1 == s.shut(ProtocolError::HandshakeTimeout).1,
        now < s.deadline ==> s.after_tick(now) == (s, Seq::<Effect>::empty()),
{
}

/// What arrives during the wait for the handshake, before the deadline,
/// decides the connection: a handshake of the same protocol version makes it
/// ready, a handshake of another version is invalid, any other message means
/// that the handshake is missing, and bytes that are no frame are an invalid
/// handshake.
pub proof fn lemma_handshake_outcomes(s: ConnectionView, message: Message, now: u64)
    requires
        s.state == ConnState::AwaitingHandshake,
        now < s.deadline,
    ensures
        match message {
            Message::Handshake(peer) => if peer.version == s.local.version {
                s.after_frame(message, now).0.state == ConnState::Ready && s.after_frame(
                    message,
                    now,
                ).0.peer == Some(peer) && s.after_frame(message, now).0.queue == s.queue
            } else {
                s.after_frame(message, now).0.closed_by == Some(ProtocolError::InvalidHandshake)
            },
            _ => s.after_frame(message, now).0.closed_by == Some(ProtocolError::MissingHandshake),
        },
        s.after_malformed(now).0.closed_by == Some(ProtocolError::InvalidHandshake),
        s.after_malformed(now).0.state == ConnState::Closed,
{
}

/// Requests are answered in the order of their submission: a request joins
/// the end of the queue, an answer goes to the request at its head, and the
/// request behind it is the next to be sent.
pub proof fn lemma_answers_in_submission_order(
    s: ConnectionView,
    answer: Answer,
    ticket: u64,
    request: Request,
)
    requires
        s.state == ConnState::Ready,
    ensures
        s.after_submit(ticket, request).0.queue == s.queue.push(Pending { ticket, request }),
        s.queue.len() > 0 ==> s.answer(answer).0.queue == s.queue.drop_first() && s.answer(
            answer,
        ).1[0] == (Effect::Deliver { ticket: s.queue[0].ticket, answer }),
        s.queue.len() > 1 ==> s.answer(answer).1 == seq![
            Effect::Deliver { ticket: s.queue[0].ticket, answer },
            Effect::Send(request_message(s.queue[1].request)),
        ],
        s.queue.len() == 1 ==> s.answer(answer).1 == seq![
            Effect::Deliver { ticket: s.queue[0].ticket, answer },
        ],
{
    if s.queue.len() > 1 {
        assert(s.queue.drop_first()[0] == s.queue[1]);
        assert(s.answer(answer).1 =~= seq![
            Effect::Deliver { ticket: s.queue[0].ticket, answer },
            Effect::Send(request_message(s.queue[1].request)),
        ]);
    }
    if s.queue.len() == 1 {
        assert(s.answer(answer).1 =~= seq![Effect::Deliver { ticket: s.queue[0].ticket, answer }]);
    }
}

/// Every frame that arrives on a live connection marks the time of its
/// arrival.
pub proof fn lemma_frames_mark_liveness(s: ConnectionView, message: Message, now: u64)
    requires
        s.state == ConnState::AwaitingHandshake || s.state == ConnState::Ready,
    ensures
        s.after_frame(message, now).0.last_seen == now,
{
}

/// A request that the peer cannot serve does not end the connection: the
/// caller is told that nothing was found, and the connection stays ready.
pub proof fn lemma_not_found_keeps_connection(s: ConnectionView, hash: u128, now: u64)
    requires
        s.state == ConnState::Ready,
    ensures
        s.after_frame(Message::NotFound { hash }, now).0.state == ConnState::Ready,
        s.queue.len() > 0 ==> s.after_frame(Message::NotFound { hash }, now).1[0] == (
        Effect::Deliver { ticket: s.queue[0].ticket, answer: Answer::NotFound { hash } }),
{
}

/// A connection to a peer.
pub struct Connection {
    state: ConnState,
    local: Handshake,
    peer: Option<Handshake>,
    deadline: u64,
    last_seen: u64,
    queue: Vec<Pending>,
    closed_by: Option<ProtocolError>,
}

impl View for Connection {
    type V = ConnectionView;

    closed spec fn view(&self) -> ConnectionView {
        ConnectionView {
            state: self.state,
            local: self.local,
            peer: self.peer,
            deadline: self.deadline,
            last_seen: self.last_seen,
            queue: self.queue@,
            closed_by: self.closed_by,
        }
    }
}

fn message_of(request: Request) -> (m: Message)
    ensures
        m == request_message(request),
{
    match request {
        Request::Meta { hash } => Message::GetMeta { hash },
        Request::Block(get) => Message::GetBlock(get),
    }
}

fn saturating_later(now: u64, delay: u64) -> (t: u64)
    ensures
        t == later(now, delay),
{
    if delay > u64::MAX - now {
        u64::MAX
    } else {
        now + delay
    }
}

impl Connection {
    /// A connection that is not connected yet and will present `local` to
    /// its peer.
    pub fn new(local: Handshake) -> (c: Connection)
        ensures
            c@ == (ConnectionView {
                state: ConnState::Connecting,
                local,
                peer: None,
                deadline: 0,
                last_seen: 0,
                queue: Seq::empty(),
                closed_by: None,
            }),
    {
        Connection {
            state: ConnState::Connecting,
            local,
            peer: None,
            deadline: 0,
            last_seen: 0,
            queue: Vec::new(),
            closed_by: None,
        }
    }

    /// The state of the connection.
    pub fn state(&self) -> (s: ConnState)
        ensures
            s == self@.state,
    {
        self.state
    }

    /// When the last frame arrived.
    pub fn last_seen(&self) -> (t: u64)
        ensures
            t == self@.last_seen,
    {
        self.last_seen
    }

    /// The handshake that the peer sent, once it has arrived.
    pub fn peer(&self) -> (p: Option<Handshake>)
        ensures
            p == self@.peer,
    {
        self.peer
    }

    /// Why the connection ended, once it has.
    pub fn closed_by(&self) -> (e: Option<ProtocolError>)
        ensures
            e == self@.closed_by,
    {
        self.closed_by
    }

    /// Number of requests that wait for their answer.
    pub fn pending(&self) -> (n: usize)
        ensures
            n == self@.queue.len(),
    {
        self.queue.len()
    }

    fn push_head(&self, effects: &mut Vec<Effect>)
        ensures
            final(effects)@ == old(effects)@ + self@.dispatch_head(),
    {
        if self.queue.len() > 0 {
            effects.push(Effect::Send(message_of(self.queue[0].request)));
            assert(final(effects)@ =~= old(effects)@ + self@.dispatch_head());
        } else {
            assert(old(effects)@ + self@.dispatch_head() =~= old(effects)@);
        }
    }

    fn shut(&mut self, error: ProtocolError) -> (effects: Vec<Effect>)
        ensures
            (final(self)@, effects@) == old(self)@.shut(error),
    {
        let mut effects: Vec<Effect> = Vec::new();
        let by_me = match error {
            ProtocolError::DisconnectByMe => true,
            _ => false,
        };
        let ready = match self.state {
            ConnState::Ready => true,
            _ => false,
        };
        if ready && by_me {
            effects.push(Effect::Send(Message::Bye));
        }
        let ghost farewell = effects@;
        let mut i: usize = 0;
        while i < self.queue.len()
            invariant
                i <= self.queue.len(),
                effects@ == farewell + failures(self.queue@.take(i as int), error),
            decreases self.queue.len() - i,
        {
            effects.push(Effect::Fail { ticket: self.queue[i].ticket, error });
            assert(effects@ =~= farewell + failures(self.queue@.take(i + 1), error));
            i += 1;
        }
        assert(self.queue@.take(i as int) == self.queue@);
        effects.push(Effect::Close);
        self.state = ConnState::Closed;
        self.closed_by = Some(error);
        self.queue = Vec::new();
        assert(effects@ =~= old(self)@.shut(error).1);
        assert(final(self)@.queue =~= old(self)@.shut(error).0.queue);
        effects
    }

    fn answer(&mut self, answer: Answer) -> (effects: Vec<Effect>)
        ensures
            (final(self)@, effects@) == old(self)@.answer(answer),
    {
        let mut effects: Vec<Effect> = Vec::new();
        if self.queue.len() > 0 {
            let head = self.queue.remove(0);
            assert(self.queue@ =~= old(self).queue@.drop_first());
            effects.push(Effect::Deliver { ticket: head.ticket, answer });
            self.push_head(&mut effects);
        }
        effects
    }

    /// Reports that the socket is connected.
    pub fn connect(&mut self, now: u64) -> (effects: Vec<Effect>)
        ensures
            (final(self)@, effects@) == old(self)@.after_connect(now),
    {
        let mut effects: Vec<Effect> = Vec::new();
        match self.state {
            ConnState::Connecting => {
                self.state = ConnState::AwaitingHandshake;
                self.deadline = saturating_later(now, HANDSHAKE_TIMEOUT_SECS);
                self.last_seen = now;
                effects.push(Effect::Send(Message::Handshake(self.local)));
                assert(effects@ =~= old(self)@.after_connect(now).1);
            },
            _ => {},
        }
        effects
    }

    /// Submits a request under `ticket`.
    pub fn submit(&mut self, ticket: u64, request: Request) -> (effects: Vec<Effect>)
        ensures
            (final(self)@, effects@) == old(self)@.after_submit(ticket, request),
    {
        let mut effects: Vec<Effect> = Vec::new();
        match self.state {
            ConnState::Closed => {
                let error = match self.closed_by {
                    Some(error) => error,
                    None => ProtocolError::Disconnect,
                };
                effects.push(Effect::Fail { ticket, error });
            },
            ConnState::Ready => {
                if self.queue.len() == 0 {
                    effects.push(Effect::Send(message_of(request)));
                }
                self.queue.push(Pending { ticket, request });
            },
            _ => {
                self.queue.push(Pending { ticket, request });
            },
        }
        assert(effects@ =~= old(self)@.after_submit(ticket, request).1);
        effects
    }

    /// Reports that time has passed.
    pub fn tick(&mut self, now: u64) -> (effects: Vec<Effect>)
        ensures
            (final(self)@, effects@) == old(self)@.after_tick(now),
    {
        match self.state {
            ConnState::AwaitingHandshake => {
                if now >= self.deadline {
                    self.shut(ProtocolError::HandshakeTimeout)
                } else {
                    Vec::new()
                }
            },
            _ => Vec::new(),
        }
    }

    /// Reports a frame that arrived.
    pub fn frame(&mut self, message: Message, now: u64) -> (effects: Vec<Effect>)
        ensures
            (final(self)@, effects@) == old(self)@.after_frame(message, now),
    {
        match self.state {
            ConnState::AwaitingHandshake => {
                self.last_seen = now;
                if now >= self.deadline {
                    self.shut(ProtocolError::HandshakeTimeout)
                } else {
                    match message {
                        Message::Handshake(peer) => {
                            if peer.version == self.local.version {
                                self.state = ConnState::Ready;
                                self.peer = Some(peer);
                                let mut effects: Vec<Effect> = Vec::new();
                                self.push_head(&mut effects);
                                assert(effects@ =~= self@.dispatch_head());
                                effects
                            } else {
                                self.shut(ProtocolError::InvalidHandshake)
                            }
                        },
                        _ => self.shut(ProtocolError::MissingHandshake),
                    }
                }
            },
            ConnState::Ready => {
                self.last_seen = now;
                match message {
                    Message::Block(block) => self.answer(Answer::Block(block)),
                    Message::Meta { hash, files } => self.answer(Answer::Meta { hash, files }),
                    Message::NotFound { hash } => self.answer(Answer::NotFound { hash }),
                    Message::GetBlock(get) => {
                        let mut effects: Vec<Effect> = Vec::new();
                        effects.push(Effect::Serve(Request::Block(get)));
                        assert(effects@ =~= seq![Effect::Serve(Request::Block(get))]);
                        effects
                    },
                    Message::GetMeta { hash } => {
                        let mut effects: Vec<Effect> = Vec::new();
                        effects.push(Effect::Serve(Request::Meta { hash }));
                        assert(effects@ =~= seq![Effect::Serve(Request::Meta { hash })]);
                        effects
                    },
                    Message::Bye => self.shut(ProtocolError::Disconnect),
                    Message::Handshake(_) => Vec::new(),
                }
            },
            _ => Vec::new(),
        }
    }

    /// Reports that bytes arrived that are no frame.
    pub fn malformed(&mut self, now: u64) -> (effects: Vec<Effect>)
        ensures
            (final(self)@, effects@) == old(self)@.after_malformed(now),
    {
        match self.state {
            ConnState::AwaitingHandshake => {
                self.last_seen = now;
                if now >= self.deadline {
                    self.shut(ProtocolError::HandshakeTimeout)
                } else {
                    self.shut(ProtocolError::InvalidHandshake)
                }
            },
            ConnState::Ready => {
                self.last_seen = now;
                self.shut(ProtocolError::DisconnectByMe)
            },
            _ => Vec::new(),
        }
    }

    /// Reports that the socket reached its end or was reset.
    pub fn socket_closed(&mut self) -> (effects: Vec<Effect>)
        ensures
            (final(self)@, effects@) == old(self)@.after_socket_closed(),
    {
        match self.state {
            ConnState::Closed => Vec::new(),
            _ => self.shut(ProtocolError::Disconnect),
        }
    }

    /// Ends the connection from this side.
    pub fn close(&mut self) -> (effects: Vec<Effect>)
        ensures
            (final(self)@, effects@) == old(self)@.after_close(),
    {
        match self.state {
            ConnState::Closed => Vec::new(),
            _ => self.shut(ProtocolError::DisconnectByMe),
        }
    }
}

} // verus!
