//! The client's side of a conversation with a Bolt server: which requests the server
//! accepts in its current state, which requests await a response, and what each
//! response does to the state.
//!
//! The bytes themselves are written and read elsewhere; a session is told what was sent
//! and what came back, and decides.
use vstd::prelude::*;

use std::collections::VecDeque;

use crate::error::Error;
use crate::message::{Message, MessageModel};
use crate::server_state::{
    admits, has_more, keeps_request, on_response, reply_of, state_after_send, tx_end_outside_tx,
    tx_result_done,
    ServerState,
};
use crate::value::BoltValue;
use crate::value_map::ValueMap;
use crate::version::version_parts;

verus! {

broadcast use vstd::std_specs::vecdeque::group_vec_dequeue_axioms;

/// Why a request could not be built from what the caller gave.
#[derive(Debug, Clone, Copy, PartialEq, Eq, Structural)]
pub enum InputError {
    /// The metadata of an `INIT` has no `user_agent`.
    MissingUserAgent,
    /// The `user_agent` of an `INIT` is not a string.
    UserAgentNotString,
    /// The `db` of a `ROUTE` is neither a string nor null.
    DbNotStringOrNull,
}

/// An error in the conversation with a server.
#[derive(Debug, PartialEq)]
pub enum CommunicationError {
    /// The server sent a response that its state does not allow.
    InvalidResponse { state: ServerState, request: Option<Message>, response: Message },
    /// The server does not accept this request in its state.
    InvalidState { state: ServerState, message: Message },
    /// The protocol version of the connection does not have this operation.
    UnsupportedOperation(u32),
    /// A message could not be encoded or decoded.
    ProtocolError(Error),
    /// A request could not be built from the given input.
    InvalidInput(InputError),
}

/// The client's record of a conversation: the protocol version, the server's state,
/// the requests sent and not yet answered, oldest first, and the number of results
/// open in the current explicit transaction.
#[derive(Debug)]
pub struct Session {
    version: u32,
    server_state: ServerState,
    sent_queue: VecDeque<Message>,
    open_tx_streams: usize,
}

/// The models of a sequence of messages.
pub open spec fn messages_view(q: Seq<Message>) -> Seq<MessageModel> {
    q.map_values(|m: Message| m@)
}

impl Session {
    pub closed spec fn spec_version(&self) -> u32 {
        self.version
    }

    pub closed spec fn state(&self) -> ServerState {
        self.server_state
    }

    /// The requests awaiting a response, oldest first.
    pub closed spec fn queue(&self) -> Seq<MessageModel> {
        messages_view(self.sent_queue@)
    }

    pub closed spec fn open(&self) -> nat {
        self.open_tx_streams as nat
    }

    /// The session's invariant: a server streaming in a transaction has a result open.
    pub open spec fn inv(&self) -> bool {
        self.state() is TxStreaming ==> self.open() >= 1
    }

    /// A session for a fresh connection that agreed on `version`.
    pub fn new(version: u32) -> (s: Session)
        ensures
            s.inv(),
            s.spec_version() == version,
            s.state() == ServerState::Connected,
            s.queue() == Seq::<MessageModel>::empty(),
            s.open() == 0,
    {
        let s = Session {
            version,
            server_state: ServerState::Connected,
            sent_queue: VecDeque::new(),
            open_tx_streams: 0,
        };
        assert(s.queue() =~= Seq::<MessageModel>::empty());
        s
    }

    pub fn version(&self) -> (v: u32)
        ensures
            v == self.spec_version(),
    {
        self.version
    }

    pub fn server_state(&self) -> (st: ServerState)
        ensures
            st == self.state(),
    {
        self.server_state
    }

    /// The number of requests awaiting a response.
    pub fn pending(&self) -> (n: usize)
        ensures
            n == self.queue().len(),
    {
        self.sent_queue.len()
    }

    /// The number of results open in the current explicit transaction.
    pub fn open_tx_streams(&self) -> (n: usize)
        ensures
            n == self.open(),
    {
        self.open_tx_streams
    }

    /// Marks the connection as unusable.
    pub fn set_defunct(&mut self)
        requires
            old(self).inv(),
        ensures
            final(self).inv(),
            final(self).state() == ServerState::Defunct,
            final(self).spec_version() == old(self).spec_version(),
            final(self).queue() == old(self).queue(),
            final(self).open() == old(self).open(),
    {
        self.server_state = ServerState::Defunct;
    }

    /// Checks that the server accepts `message` in its state. If it does, the message
    /// is handed back and nothing changes; if not, the connection becomes defunct and
    /// the error holds the state and the message.
    pub fn check_request(&mut self, message: Message) -> (res: Result<Message, CommunicationError>)
        requires
            old(self).inv(),
        ensures
            final(self).inv(),
            final(self).spec_version() == old(self).spec_version(),
            final(self).queue() == old(self).queue(),
            final(self).open() == old(self).open(),
            admits(old(self).spec_version(), old(self).state(), message@) ==> {
                &&& res matches Ok(m) && m == message
                &&& final(self).state() == old(self).state()
            },
            !admits(old(self).spec_version(), old(self).state(), message@) ==> {
                &&& res matches Err(CommunicationError::InvalidState { state, message: m })
                    && state == old(self).state() && m == message
                &&& final(self).state() == ServerState::Defunct
            },
    {
        let state = self.server_state;
        let tx_end_ok = ends_tx_outside_tx(self.version);
        let ok = match state {
            ServerState::Connected => match &message {
                Message::Init(_) | Message::Hello(_) => true,
                _ => false,
            },
            ServerState::Ready => match &message {
                Message::Run(_) | Message::RunWithMetadata(_) | Message::Begin(_)
                | Message::Route(_) | Message::RouteWithMetadata(_) | Message::Reset
                | Message::Goodbye => true,
                Message::Commit | Message::Rollback => tx_end_ok,
                _ => false,
            },
            ServerState::Streaming => match &message {
                Message::PullAll | Message::Pull(_) | Message::DiscardAll | Message::Discard(_)
                | Message::Reset | Message::Goodbye => true,
                _ => false,
            },
            ServerState::TxReady => match &message {
                Message::RunWithMetadata(_) | Message::Commit | Message::Rollback | Message::Reset
                | Message::Goodbye => true,
                _ => false,
            },
            ServerState::TxStreaming => match &message {
                Message::RunWithMetadata(_) | Message::PullAll | Message::Pull(_)
                | Message::DiscardAll | Message::Discard(_) | Message::Reset
                | Message::Goodbye => true,
                _ => false,
            },
            ServerState::Failed => match &message {
                Message::Run(_) | Message::RunWithMetadata(_) | Message::PullAll | Message::Pull(_)
                | Message::DiscardAll | Message::Discard(_) | Message::AckFailure
                | Message::Reset | Message::Goodbye => true,
                _ => false,
            },
            ServerState::Interrupted => match &message {
                Message::Run(_) | Message::RunWithMetadata(_) | Message::PullAll | Message::Pull(_)
                | Message::DiscardAll | Message::Discard(_) | Message::AckFailure
                | Message::Begin(_) | Message::Commit | Message::Rollback | Message::Reset
                | Message::Goodbye => true,
                _ => false,
            },
            ServerState::Defunct | ServerState::Disconnected => false,
        };
        if ok {
            Ok(message)
        } else {
            self.server_state = ServerState::Defunct;
            Err(CommunicationError::InvalidState { state, message })
        }
    }

    /// Records that `message` was sent: it joins the end of the queue of requests
    /// awaiting a response, and a reset or goodbye changes the state at once.
    pub fn record_sent(&mut self, message: Message)
        requires
            old(self).inv(),
        ensures
            final(self).inv(),
            final(self).spec_version() == old(self).spec_version(),
            final(self).state() == state_after_send(old(self).state(), message@),
            final(self).queue() == old(self).queue().push(message@),
            final(self).open() == old(self).open(),
    {
        match &message {
            Message::Reset => {
                self.server_state = ServerState::Interrupted;
            },
            Message::Goodbye => {
                self.server_state = ServerState::Disconnected;
            },
            _ => {},
        }
        let ghost q = self.sent_queue@;
        self.sent_queue.push_back(message);
        assert(messages_view(self.sent_queue@) =~= messages_view(q).push(message@));
    }
}

/// Whether a ready server speaking `version` can be sent a `COMMIT` or `ROLLBACK`
/// outside a transaction: from Bolt v4 on.
fn ends_tx_outside_tx(version: u32) -> (b: bool)
    ensures
        b == tx_end_outside_tx(version),
{
    let (major, _, _) = version_parts(version);
    major >= 4
}

/// Whether the metadata of a `SUCCESS` says that more records are to come.
fn success_has_more(metadata: &ValueMap) -> (b: bool)
    ensures
        b == has_more(metadata@),
{
    match metadata.get("has_more") {
        Some(BoltValue::Boolean(true)) => true,
        _ => false,
    }
}

/// The response's effect in the states before a transaction streams: connected, ready,
/// streaming, tx-ready.
fn transition_outside_tx_stream(
    version: u32,
    state: ServerState,
    open: usize,
    request: &Message,
    response: &Message,
) -> (res: Option<(ServerState, usize)>)
    requires
        open < usize::MAX,
        state is Connected || state is Ready || state is Streaming || state is TxReady,
    ensures
        match on_response(version, state, open as nat, request@, response@) {
            Some((s, n)) => res == Some((s, n as usize)),
            None => res is None,
        },
{
    match state {
        ServerState::Connected => match (request, response) {
            (Message::Init(_), Message::Success(_)) | (Message::Hello(_), Message::Success(_)) => Some(
                (ServerState::Ready, open),
            ),
            (Message::Init(_), Message::Failure(_)) | (Message::Hello(_), Message::Failure(_)) => Some(
                (ServerState::Defunct, open),
            ),
            _ => None,
        },
        ServerState::Ready => match (request, response) {
            (Message::Run(_), Message::Success(_))
            | (Message::RunWithMetadata(_), Message::Success(_)) => Some(
                (ServerState::Streaming, open),
            ),
            (Message::Begin(_), Message::Success(_)) => Some((ServerState::TxReady, open)),
            (Message::Route(_), Message::Success(_))
            | (Message::RouteWithMetadata(_), Message::Success(_)) => Some(
                (ServerState::Ready, open),
            ),
            (Message::Run(_), Message::Failure(_))
            | (Message::RunWithMetadata(_), Message::Failure(_))
            | (Message::Begin(_), Message::Failure(_))
            | (Message::Route(_), Message::Failure(_))
            | (Message::RouteWithMetadata(_), Message::Failure(_)) => Some(
                (ServerState::Failed, open),
            ),
            (Message::Commit, Message::Failure(_)) | (Message::Rollback, Message::Failure(_)) => {
                if ends_tx_outside_tx(version) {
                    Some((ServerState::Failed, open))
                } else {
                    None
                }
            },
            _ => None,
        },
        ServerState::Streaming => match (request, response) {
            (Message::PullAll, Message::Success(_))
            | (Message::DiscardAll, Message::Success(_)) => Some((ServerState::Ready, open)),
            (Message::Pull(_), Message::Success(success))
            | (Message::Discard(_), Message::Success(success)) => {
                if success_has_more(&success.metadata) {
                    Some((ServerState::Streaming, open))
                } else {
                    Some((ServerState::Ready, open))
                }
            },
            (Message::PullAll, Message::Record(_)) | (Message::Pull(_), Message::Record(_)) => Some(
                (ServerState::Streaming, open),
            ),
            (Message::PullAll, Message::Failure(_))
            | (Message::Pull(_), Message::Failure(_))
            | (Message::DiscardAll, Message::Failure(_))
            | (Message::Discard(_), Message::Failure(_)) => Some((ServerState::Failed, open)),
            _ => None,
        },
        _ => match (request, response) {
            (Message::RunWithMetadata(_), Message::Success(_)) => Some(
                (ServerState::TxStreaming, open + 1),
            ),
            (Message::Commit, Message::Success(_)) | (Message::Rollback, Message::Success(_)) => Some(
                (ServerState::Ready, open),
            ),
            (Message::RunWithMetadata(_), Message::Failure(_))
            | (Message::Commit, Message::Failure(_))
            | (Message::Rollback, Message::Failure(_)) => Some((ServerState::Failed, open)),
            _ => None,
        },
    }
}

/// The response's effect while a transaction streams, after a failure, and while
/// interrupted.
fn transition_inside_tx_stream(
    version: u32,
    state: ServerState,
    open: usize,
    request: &Message,
    response: &Message,
) -> (res: Option<(ServerState, usize)>)
    requires
        open < usize::MAX,
        state is TxStreaming ==> open >= 1,
        state is TxStreaming || state is Failed || state is Interrupted,
    ensures
        match on_response(version, state, open as nat, request@, response@) {
            Some((s, n)) => res == Some((s, n as usize)),
            None => res is None,
        },
{
    match state {
        ServerState::TxStreaming => match (request, response) {
            (Message::RunWithMetadata(_), Message::Success(_)) => Some(
                (ServerState::TxStreaming, open + 1),
            ),
            (Message::PullAll, Message::Success(_))
            | (Message::DiscardAll, Message::Success(_)) => Some((ServerState::TxReady, open - 1)),
            (Message::Pull(_), Message::Success(success))
            | (Message::Discard(_), Message::Success(success)) => {
                if success_has_more(&success.metadata) {
                    Some((ServerState::TxStreaming, open))
                } else {
                    let left = open - 1;
                    let st = if left > 0 {
                        ServerState::TxStreaming
                    } else {
                        ServerState::TxReady
                    };
                    assert(tx_result_done(open as nat) == (st, left as nat));
                    Some((st, left))
                }
            },
            (Message::PullAll, Message::Record(_)) | (Message::Pull(_), Message::Record(_)) => Some(
                (ServerState::TxStreaming, open),
            ),
            (Message::RunWithMetadata(_), Message::Failure(_))
            | (Message::PullAll, Message::Failure(_))
            | (Message::Pull(_), Message::Failure(_))
            | (Message::DiscardAll, Message::Failure(_))
            | (Message::Discard(_), Message::Failure(_)) => Some((ServerState::Failed, open)),
            _ => None,
        },
        ServerState::Failed => match (request, response) {
            (Message::Run(_), Message::Ignored)
            | (Message::RunWithMetadata(_), Message::Ignored)
            | (Message::PullAll, Message::Ignored)
            | (Message::Pull(_), Message::Ignored)
            | (Message::DiscardAll, Message::Ignored)
            | (Message::Discard(_), Message::Ignored)
            | (Message::Route(_), Message::Ignored)
            | (Message::RouteWithMetadata(_), Message::Ignored) => Some(
                (ServerState::Failed, open),
            ),
            (Message::AckFailure, Message::Success(_)) => Some((ServerState::Ready, open)),
            (Message::AckFailure, Message::Failure(_)) => Some((ServerState::Defunct, open)),
            _ => None,
        },
        _ => match (request, response) {
            (Message::Reset, Message::Success(_)) => Some((ServerState::Ready, 0)),
            (Message::Reset, Message::Failure(_)) => Some((ServerState::Defunct, open)),
            (Message::Reset, _) => None,
            (Message::Run(_), _)
            | (Message::RunWithMetadata(_), _)
            | (Message::PullAll, _)
            | (Message::Pull(_), _)
            | (Message::DiscardAll, _)
            | (Message::Discard(_), _)
            | (Message::Begin(_), _)
            | (Message::Commit, _)
            | (Message::Rollback, _)
            | (Message::AckFailure, _)
            | (Message::Route(_), _)
            | (Message::RouteWithMetadata(_), _) => Some((ServerState::Interrupted, open)),
            _ => None,
        },
    }
}

impl Session {
    /// Takes in the server's next response. The oldest request awaiting a response is
    /// the one it answers; the state moves as the protocol says. A pull answered by a
    /// record stays at the front of the queue, since more records or a summary follow.
    /// While the server is interrupted, every answer but the reset's is handed back as
    /// `IGNORED`. A response that the protocol does not allow, or one that answers no
    /// request, makes the connection defunct, and the error holds the state, the
    /// request and the response.
    pub fn take_response(&mut self, response: Message) -> (res: Result<Message, CommunicationError>)
        requires
            old(self).inv(),
            old(self).open() < usize::MAX,
        ensures
            final(self).inv(),
            final(self).spec_version() == old(self).spec_version(),
            old(self).queue().len() == 0 ==> {
                &&& res matches Err(
                    CommunicationError::InvalidResponse { state, request: None, response: r },
                ) && state == old(self).state() && r == response
                &&& final(self).state() == ServerState::Defunct
                &&& final(self).queue() == old(self).queue()
                &&& final(self).open() == old(self).open()
            },
            old(self).queue().len() > 0 ==> {
                let request = old(self).queue()[0];
                match on_response(
                    old(self).spec_version(),
                    old(self).state(),
                    old(self).open(),
                    request,
                    response@,
                ) {
                    Some((st, n)) => {
                        &&& res matches Ok(r) && r@ == reply_of(old(self).state(), request, response@)
                        &&& final(self).state() == st
                        &&& final(self).open() == n
                        &&& final(self).queue() == if keeps_request(
                            old(self).state(),
                            request,
                            response@,
                        ) {
                            old(self).queue()
                        } else {
                            old(self).queue().drop_first()
                        }
                    },
                    None => {
                        &&& res matches Err(
                            CommunicationError::InvalidResponse {
                                state,
                                request: Some(req),
                                response: r,
                            },
                        ) && state == old(self).state() && req@ == request && r == response
                        &&& final(self).state() == ServerState::Defunct
                        &&& final(self).queue() == old(self).queue().drop_first()
                        &&& final(self).open() == old(self).open()
                    },
                }
            },
    {
        let state = self.server_state;
        let open = self.open_tx_streams;
        let ghost q = self.sent_queue@;
        let popped = self.sent_queue.pop_front();
        proof {
            if q.len() > 0 {
                assert(messages_view(self.sent_queue@) =~= messages_view(q).drop_first());
            }
        }
        let request = match popped {
            Some(r) => r,
            None => {
                self.server_state = ServerState::Defunct;
                return Err(
                    CommunicationError::InvalidResponse { state, request: None, response },
                );
            },
        };
        let next = match state {
            ServerState::Connected | ServerState::Ready | ServerState::Streaming
            | ServerState::TxReady => transition_outside_tx_stream(
                self.version,
                state,
                open,
                &request,
                &response,
            ),
            ServerState::TxStreaming | ServerState::Failed | ServerState::Interrupted =>
                transition_inside_tx_stream(self.version, state, open, &request, &response),
            ServerState::Defunct | ServerState::Disconnected => None,
        };
        match next {
            None => {
                self.server_state = ServerState::Defunct;
                Err(
                    CommunicationError::InvalidResponse {
                        state,
                        request: Some(request),
                        response,
                    },
                )
            },
            Some((st, n)) => {
                self.server_state = st;
                self.open_tx_streams = n;
                let keep = match (&request, &response) {
                    (Message::PullAll, Message::Record(_)) | (Message::Pull(_), Message::Record(
                        _,
                    )) => match state {
                        ServerState::Streaming | ServerState::TxStreaming
                        | ServerState::Interrupted => true,
                        _ => false,
                    },
                    _ => false,
                };
                let interrupted = match state {
                    ServerState::Interrupted => match &request {
                        Message::Reset => false,
                        _ => true,
                    },
                    _ => false,
                };
                if keep {
                    self.sent_queue.push_front(request);
                    proof {
                        assert(messages_view(self.sent_queue@) =~= q.map_values(
                            |m: Message| m@,
                        ));
                    }
                }
                if interrupted {
                    Ok(Message::Ignored)
                } else {
                    Ok(response)
                }
            },
        }
    }
}

} // verus!
