//! The states of a Bolt server, and the rules by which requests and responses move a
//! server between them, as a client tracks them.
use vstd::prelude::*;

use crate::message::MessageModel;
use crate::packstream::find_key;
use crate::value::ValueModel;
use crate::version::major_of;

verus! {

/// The state of a Bolt server.
#[derive(Clone, Copy, PartialEq, Eq, Structural, Debug)]
pub enum ServerState {
    /// Connected, before initialization.
    Connected,
    /// Ready to accept a request.
    Ready,
    /// A result is available for streaming.
    Streaming,
    /// In an explicit transaction, ready to accept a request.
    TxReady,
    /// In an explicit transaction, with results available for streaming.
    TxStreaming,
    /// A request failed; requests are ignored until the failure is acknowledged.
    Failed,
    /// A reset was requested; requests are ignored until the reset completes.
    Interrupted,
    /// The connection is unusable.
    Defunct,
    /// The connection is closed.
    Disconnected,
}

/// Whether the protocol version lets a ready server, outside any transaction, be sent a
/// `COMMIT` or `ROLLBACK`, which it answers with a `FAILURE`: from Bolt v4 on.
pub open spec fn tx_end_outside_tx(version: u32) -> bool {
    major_of(version) >= 4
}

/// Whether a server in `state`, speaking `version`, accepts the request `m`. No request
/// is accepted once the connection is defunct or closed.
pub open spec fn admits(version: u32, state: ServerState, m: MessageModel) -> bool {
    match state {
        ServerState::Connected => m is Init || m is Hello,
        ServerState::Ready => m is Run || m is RunWithMetadata || m is Begin || m is Route
            || m is RouteWithMetadata || m is Reset || m is Goodbye || (tx_end_outside_tx(
            version,
        ) && (m is Commit || m is Rollback)),
        ServerState::Streaming => m is PullAll || m is Pull || m is DiscardAll || m is Discard
            || m is Reset || m is Goodbye,
        ServerState::TxReady => m is RunWithMetadata || m is Commit || m is Rollback || m is Reset
            || m is Goodbye,
        ServerState::TxStreaming => m is RunWithMetadata || m is PullAll || m is Pull
            || m is DiscardAll || m is Discard || m is Reset || m is Goodbye,
        ServerState::Failed => m is Run || m is RunWithMetadata || m is PullAll || m is Pull
            || m is DiscardAll || m is Discard || m is AckFailure || m is Reset || m is Goodbye,
        ServerState::Interrupted => m is Run || m is RunWithMetadata || m is PullAll || m is Pull
            || m is DiscardAll || m is Discard || m is AckFailure || m is Begin || m is Commit
            || m is Rollback || m is Reset || m is Goodbye,
        ServerState::Defunct => false,
        ServerState::Disconnected => false,
    }
}

/// The state right after sending `m`: a reset interrupts the server at once, a goodbye
/// closes the connection; other requests change the state only with their response.
pub open spec fn state_after_send(state: ServerState, m: MessageModel) -> ServerState {
    if m is Reset {
        ServerState::Interrupted
    } else if m is Goodbye {
        ServerState::Disconnected
    } else {
        state
    }
}

/// Whether the metadata of a `SUCCESS` says that more records are to come: its
/// `has_more` entry is `true`.
pub open spec fn has_more(metadata: Seq<(ValueModel, ValueModel)>) -> bool {
    match find_key(metadata, ValueModel::String("has_more"@), 0) {
        Some(i) => metadata[i].1 == ValueModel::Boolean(true),
        None => false,
    }
}

/// Whether `m` asks for records to be streamed.
pub open spec fn is_pull(m: MessageModel) -> bool {
    m is PullAll || m is Pull
}

/// Whether `m` asks for records to be discarded.
pub open spec fn is_discard(m: MessageModel) -> bool {
    m is DiscardAll || m is Discard
}

/// Whether `m` starts a query.
pub open spec fn is_run(m: MessageModel) -> bool {
    m is Run || m is RunWithMetadata
}

/// Whether `m` asks for a routing table.
pub open spec fn is_route(m: MessageModel) -> bool {
    m is Route || m is RouteWithMetadata
}

/// The state after the last record of a result in an explicit transaction has been
/// streamed or discarded: the number of open results drops by one.
pub open spec fn tx_result_done(open: nat) -> (ServerState, nat) {
    let left = (open - 1) as nat;
    if left > 0 {
        (ServerState::TxStreaming, left)
    } else {
        (ServerState::TxReady, left)
    }
}

/// What a response does to a server in `state`, speaking `version`, with `open` results
/// open in its transaction, that answers `request`: the next state and number of open
/// results, or `None` where the protocol does not allow this response.
pub open spec fn on_response(
    version: u32,
    state: ServerState,
    open: nat,
    request: MessageModel,
    response: MessageModel,
) -> Option<(ServerState, nat)> {
    match state {
        ServerState::Connected => if request is Init || request is Hello {
            if response is Success {
                Some((ServerState::Ready, open))
            } else if response is Failure {
                Some((ServerState::Defunct, open))
            } else {
                None
            }
        } else {
            None
        },
        ServerState::Ready => if is_run(request) || is_route(request) || request is Begin {
            if response is Success {
                Some(
                    (
                        if is_run(request) {
                            ServerState::Streaming
                        } else if request is Begin {
                            ServerState::TxReady
                        } else {
                            ServerState::Ready
                        },
                        open,
                    ),
                )
            } else if response is Failure {
                Some((ServerState::Failed, open))
            } else {
                None
            }
        } else if tx_end_outside_tx(version) && (request is Commit || request is Rollback) {
            if response is Failure {
                Some((ServerState::Failed, open))
            } else {
                None
            }
        } else {
            None
        },
        ServerState::Streaming => if is_pull(request) || is_discard(request) {
            match response {
                MessageModel::Success(md) => if (request is Pull || request is Discard) && has_more(
                    md,
                ) {
                    Some((ServerState::Streaming, open))
                } else {
                    Some((ServerState::Ready, open))
                },
                MessageModel::Record(_) => if is_pull(request) {
                    Some((ServerState::Streaming, open))
                } else {
                    None
                },
                MessageModel::Failure(_) => Some((ServerState::Failed, open)),
                _ => None,
            }
        } else {
            None
        },
        ServerState::TxReady => if request is RunWithMetadata || request is Commit
            || request is Rollback {
            if response is Success {
                if request is RunWithMetadata {
                    Some((ServerState::TxStreaming, open + 1))
                } else {
                    Some((ServerState::Ready, open))
                }
            } else if response is Failure {
                Some((ServerState::Failed, open))
            } else {
                None
            }
        } else {
            None
        },
        ServerState::TxStreaming => if request is RunWithMetadata {
            if response is Success {
                Some((ServerState::TxStreaming, open + 1))
            } else if response is Failure {
                Some((ServerState::Failed, open))
            } else {
                None
            }
        } else if is_pull(request) || is_discard(request) {
            match response {
                MessageModel::Success(md) => if request is PullAll || request is DiscardAll {
                    Some((ServerState::TxReady, (open - 1) as nat))
                } else if has_more(md) {
                    Some((ServerState::TxStreaming, open))
                } else {
                    Some(tx_result_done(open))
                },
                MessageModel::Record(_) => if is_pull(request) {
                    Some((ServerState::TxStreaming, open))
                } else {
                    None
                },
                MessageModel::Failure(_) => Some((ServerState::Failed, open)),
                _ => None,
            }
        } else {
            None
        },
        ServerState::Failed => if is_run(request) || is_pull(request) || is_discard(request)
            || is_route(request) {
            if response is Ignored {
                Some((ServerState::Failed, open))
            } else {
                None
            }
        } else if request is AckFailure {
            if response is Success {
                Some((ServerState::Ready, open))
            } else if response is Failure {
                Some((ServerState::Defunct, open))
            } else {
                None
            }
        } else {
            None
        },
        ServerState::Interrupted => if request is Reset {
            if response is Success {
                Some((ServerState::Ready, 0))
            } else if response is Failure {
                Some((ServerState::Defunct, open))
            } else {
                None
            }
        } else if is_run(request) || is_pull(request) || is_discard(request) || is_route(request)
            || request is Begin || request is Commit || request is Rollback
            || request is AckFailure {
            Some((ServerState::Interrupted, open))
        } else {
            None
        },
        ServerState::Defunct => None,
        ServerState::Disconnected => None,
    }
}

/// Whether the request stays at the front of the queue: a pull goes on answering with
/// records until its summary.
pub open spec fn keeps_request(state: ServerState, request: MessageModel, response: MessageModel) -> bool {
    &&& state is Streaming || state is TxStreaming || state is Interrupted
    &&& is_pull(request)
    &&& response is Record
}

/// The message handed back for an allowed response: while interrupted, every answer
/// but the reset's own counts as ignored.
pub open spec fn reply_of(state: ServerState, request: MessageModel, response: MessageModel) -> MessageModel {
    if state is Interrupted && !(request is Reset) {
        MessageModel::Ignored
    } else {
        response
    }
}

/// No request is accepted once the connection is defunct or closed.
pub proof fn law_closed_connection_refuses(version: u32, m: MessageModel)
    ensures
        !admits(version, ServerState::Defunct, m),
        !admits(version, ServerState::Disconnected, m),
{
}

/// Once initialized, and until the connection is defunct or closed, the server accepts
/// a reset and a goodbye in every state.
pub proof fn law_reset_and_goodbye_accepted(version: u32, state: ServerState)
    requires
        !(state is Connected || state is Defunct || state is Disconnected),
    ensures
        admits(version, state, MessageModel::Reset),
        admits(version, state, MessageModel::Goodbye),
        state_after_send(state, MessageModel::Reset) == ServerState::Interrupted,
        state_after_send(state, MessageModel::Goodbye) == ServerState::Disconnected,
{
}

/// A successful reset brings the server back to ready with no result open, and its
/// answer is handed back as it came.
pub proof fn law_reset_success(version: u32, open: nat, metadata: Seq<(ValueModel, ValueModel)>)
    ensures
        on_response(
            version,
            ServerState::Interrupted,
            open,
            MessageModel::Reset,
            MessageModel::Success(metadata),
        ) == Some((ServerState::Ready, 0nat)),
        reply_of(ServerState::Interrupted, MessageModel::Reset, MessageModel::Success(metadata))
            == MessageModel::Success(metadata),
{
}

/// Every allowed response keeps the count of open results in step with the state: a
/// server streaming in a transaction has a result open.
pub proof fn law_tx_streaming_has_open_result(
    version: u32,
    state: ServerState,
    open: nat,
    request: MessageModel,
    response: MessageModel,
)
    requires
        state is TxStreaming ==> open >= 1,
    ensures
        on_response(version, state, open, request, response) matches Some((next, n)) ==> (next
            is TxStreaming ==> n >= 1),
{
}

/// A `FAILURE` that the protocol allows leaves the server failed, or defunct where it
/// answers initialization, an acknowledgement or a reset; while interrupted it counts
/// for nothing.
pub proof fn law_failure_response(
    version: u32,
    state: ServerState,
    open: nat,
    request: MessageModel,
    metadata: Seq<(ValueModel, ValueModel)>,
)
    ensures
        on_response(version, state, open, request, MessageModel::Failure(metadata)) matches Some((next, _))
            ==> (next is Failed || next is Defunct || next is Interrupted),
        on_response(version, state, open, request, MessageModel::Failure(metadata)) matches Some((next, _))
            && next is Defunct ==> (request is Init || request is Hello || request is AckFailure
            || request is Reset),
{
}

/// A failed server ignores every request until the failure is acknowledged: the only
/// allowed answer to any other request is `IGNORED`, and the server stays failed.
pub proof fn law_failed_ignores(
    version: u32,
    open: nat,
    request: MessageModel,
    response: MessageModel,
)
    requires
        !(request is AckFailure),
    ensures
        on_response(version, ServerState::Failed, open, request, response) matches Some((next, n)) ==> (
        response is Ignored && next is Failed && n == open),
{
}

/// While a reset is under way, every answer to an earlier request is handed back as
/// `IGNORED`, and the server stays interrupted.
pub proof fn law_interrupted_ignores(
    version: u32,
    open: nat,
    request: MessageModel,
    response: MessageModel,
)
    requires
        !(request is Reset),
    ensures
        reply_of(ServerState::Interrupted, request, response) == MessageModel::Ignored,
        on_response(version, ServerState::Interrupted, open, request, response) matches Some((next, n))
            ==> (next is Interrupted && n == open),
{
}

/// Outside a transaction, a `COMMIT` or `ROLLBACK` is refused before Bolt v4; from Bolt
/// v4 on it is sent, and the server's `FAILURE` leaves it failed.
pub proof fn law_tx_end_outside_tx(
    version: u32,
    open: nat,
    metadata: Seq<(ValueModel, ValueModel)>,
)
    ensures
        admits(version, ServerState::Ready, MessageModel::Commit) <==> major_of(version) >= 4,
        admits(version, ServerState::Ready, MessageModel::Rollback) <==> major_of(version) >= 4,
        major_of(version) >= 4 ==> on_response(
            version,
            ServerState::Ready,
            open,
            MessageModel::Rollback,
            MessageModel::Failure(metadata),
        ) == Some((ServerState::Failed, open)),
        major_of(version) >= 4 ==> on_response(
            version,
            ServerState::Ready,
            open,
            MessageModel::Commit,
            MessageModel::Failure(metadata),
        ) == Some((ServerState::Failed, open)),
{
}


/// Before initialization the server accepts only an `INIT` or a `HELLO`.
pub proof fn law_connected_accepts_only_initialization(version: u32, m: MessageModel)
    ensures
        admits(version, ServerState::Connected, m) <==> (m is Init || m is Hello),
{
}

/// A ready server accepts a query, a transaction's start, a routing request, a reset and
/// a goodbye, and never a request that pulls, discards or acknowledges.
pub proof fn law_ready_accepts(version: u32, m: MessageModel)
    ensures
        (m is Run || m is RunWithMetadata || m is Begin || m is Route || m is RouteWithMetadata
            || m is Reset || m is Goodbye) ==> admits(version, ServerState::Ready, m),
        (m is PullAll || m is Pull || m is DiscardAll || m is Discard || m is AckFailure || m is Init
            || m is Hello) ==> !admits(version, ServerState::Ready, m),
{
}

/// A server with a result to stream accepts every request that pulls or discards
/// records, in a transaction or not, and nothing that starts a new unit of work outside
/// one.
pub proof fn law_streaming_accepts_pull_and_discard(version: u32, m: MessageModel)
    ensures
        (m is PullAll || m is Pull || m is DiscardAll || m is Discard) ==> {
            &&& admits(version, ServerState::Streaming, m)
            &&& admits(version, ServerState::TxStreaming, m)
        },
        (m is Run || m is RunWithMetadata || m is Begin || m is Commit || m is Rollback || m is Init
            || m is Hello || m is AckFailure) ==> !admits(version, ServerState::Streaming, m),
        m is RunWithMetadata ==> admits(version, ServerState::TxStreaming, m),
{
}

/// Inside a transaction that is ready, the server accepts a query with metadata, a
/// commit and a rollback, and refuses a plain query, a new transaction and any pull.
pub proof fn law_tx_ready_accepts(version: u32, m: MessageModel)
    ensures
        (m is RunWithMetadata || m is Commit || m is Rollback || m is Reset || m is Goodbye)
            ==> admits(version, ServerState::TxReady, m),
        (m is Run || m is Begin || m is PullAll || m is Pull || m is DiscardAll || m is Discard
            || m is Route || m is RouteWithMetadata) ==> !admits(version, ServerState::TxReady, m),
{
}

/// A failed server accepts the acknowledgement and the requests it will ignore; an
/// interrupted one accepts every request but initialization and routing.
pub proof fn law_failed_and_interrupted_accept(version: u32, m: MessageModel)
    ensures
        (m is Run || m is RunWithMetadata || m is PullAll || m is Pull || m is DiscardAll
            || m is Discard || m is AckFailure) ==> admits(version, ServerState::Failed, m),
        (m is Run || m is RunWithMetadata || m is PullAll || m is Pull || m is DiscardAll
            || m is Discard || m is AckFailure || m is Begin || m is Commit || m is Rollback)
            ==> admits(version, ServerState::Interrupted, m),
        (m is Init || m is Hello) ==> !admits(version, ServerState::Failed, m) && !admits(
            version,
            ServerState::Interrupted,
            m,
        ),
{
}

/// The answer to initialization: `SUCCESS` makes the server ready, `FAILURE` makes the
/// connection defunct.
pub proof fn law_initialization_response(
    version: u32,
    open: nat,
    request: MessageModel,
    md: Seq<(ValueModel, ValueModel)>,
)
    requires
        request is Init || request is Hello,
    ensures
        on_response(version, ServerState::Connected, open, request, MessageModel::Success(md))
            == Some((ServerState::Ready, open)),
        on_response(version, ServerState::Connected, open, request, MessageModel::Failure(md))
            == Some((ServerState::Defunct, open)),
{
}

/// From ready, a successful query leaves a result to stream, a successful `BEGIN` opens
/// a transaction, and a successful routing request leaves the server ready; a `FAILURE`
/// to any of them leaves it failed.
pub proof fn law_ready_success(
    version: u32,
    open: nat,
    request: MessageModel,
    md: Seq<(ValueModel, ValueModel)>,
)
    ensures
        (request is Run || request is RunWithMetadata) ==> on_response(
            version,
            ServerState::Ready,
            open,
            request,
            MessageModel::Success(md),
        ) == Some((ServerState::Streaming, open)),
        request is Begin ==> on_response(
            version,
            ServerState::Ready,
            open,
            request,
            MessageModel::Success(md),
        ) == Some((ServerState::TxReady, open)),
        (request is Route || request is RouteWithMetadata) ==> on_response(
            version,
            ServerState::Ready,
            open,
            request,
            MessageModel::Success(md),
        ) == Some((ServerState::Ready, open)),
        (request is Run || request is RunWithMetadata || request is Begin || request is Route
            || request is RouteWithMetadata) ==> on_response(
            version,
            ServerState::Ready,
            open,
            request,
            MessageModel::Failure(md),
        ) == Some((ServerState::Failed, open)),
{
}

/// Outside a transaction, the summary of a `PULL_ALL` or `DISCARD_ALL` ends the result
/// and leaves the server ready; that of a `PULL` or `DISCARD` does so unless it says more
/// records are to come. Records answer pulls and keep the result open, never discards.
pub proof fn law_streaming_summary(
    version: u32,
    open: nat,
    request: MessageModel,
    md: Seq<(ValueModel, ValueModel)>,
    fields: Seq<ValueModel>,
)
    ensures
        (request is PullAll || request is DiscardAll) ==> on_response(
            version,
            ServerState::Streaming,
            open,
            request,
            MessageModel::Success(md),
        ) == Some((ServerState::Ready, open)),
        (request is Pull || request is Discard) ==> on_response(
            version,
            ServerState::Streaming,
            open,
            request,
            MessageModel::Success(md),
        ) == Some((if has_more(md) { ServerState::Streaming } else { ServerState::Ready }, open)),
        (request is PullAll || request is Pull) ==> on_response(
            version,
            ServerState::Streaming,
            open,
            request,
            MessageModel::Record(fields),
        ) == Some((ServerState::Streaming, open)),
        (request is DiscardAll || request is Discard) ==> on_response(
            version,
            ServerState::Streaming,
            open,
            request,
            MessageModel::Record(fields),
        ) is None,
        (request is PullAll || request is Pull || request is DiscardAll || request is Discard)
            ==> on_response(
            version,
            ServerState::Streaming,
            open,
            request,
            MessageModel::Failure(md),
        ) == Some((ServerState::Failed, open)),
{
}

/// In a ready transaction, a successful `COMMIT` or `ROLLBACK` ends the transaction and
/// leaves the server ready, and a successful query opens one more result; a `FAILURE`
/// to any of them leaves the server failed.
pub proof fn law_tx_ready_responses(
    version: u32,
    open: nat,
    request: MessageModel,
    md: Seq<(ValueModel, ValueModel)>,
)
    ensures
        (request is Commit || request is Rollback) ==> on_response(
            version,
            ServerState::TxReady,
            open,
            request,
            MessageModel::Success(md),
        ) == Some((ServerState::Ready, open)),
        request is RunWithMetadata ==> on_response(
            version,
            ServerState::TxReady,
            open,
            request,
            MessageModel::Success(md),
        ) == Some((ServerState::TxStreaming, open + 1)),
        (request is Commit || request is Rollback || request is RunWithMetadata) ==> on_response(
            version,
            ServerState::TxReady,
            open,
            request,
            MessageModel::Failure(md),
        ) == Some((ServerState::Failed, open)),
{
}

/// Streaming in a transaction: another query opens one more result; the summary of a
/// `PULL_ALL` or `DISCARD_ALL` closes a result and leaves the transaction ready; that of
/// a `PULL` or `DISCARD` keeps the result open while more records are to come, and
/// otherwise closes it, the server streaming on while other results are open.
pub proof fn law_tx_streaming_responses(
    version: u32,
    open: nat,
    request: MessageModel,
    md: Seq<(ValueModel, ValueModel)>,
    fields: Seq<ValueModel>,
)
    requires
        open >= 1,
    ensures
        request is RunWithMetadata ==> on_response(
            version,
            ServerState::TxStreaming,
            open,
            request,
            MessageModel::Success(md),
        ) == Some((ServerState::TxStreaming, open + 1)),
        (request is PullAll || request is DiscardAll) ==> on_response(
            version,
            ServerState::TxStreaming,
            open,
            request,
            MessageModel::Success(md),
        ) == Some((ServerState::TxReady, (open - 1) as nat)),
        (request is Pull || request is Discard) && has_more(md) ==> on_response(
            version,
            ServerState::TxStreaming,
            open,
            request,
            MessageModel::Success(md),
        ) == Some((ServerState::TxStreaming, open)),
        (request is Pull || request is Discard) && !has_more(md) && open > 1 ==> on_response(
            version,
            ServerState::TxStreaming,
            open,
            request,
            MessageModel::Success(md),
        ) == Some((ServerState::TxStreaming, (open - 1) as nat)),
        (request is Pull || request is Discard) && !has_more(md) && open == 1 ==> on_response(
            version,
            ServerState::TxStreaming,
            open,
            request,
            MessageModel::Success(md),
        ) == Some((ServerState::TxReady, 0nat)),
        (request is PullAll || request is Pull) ==> on_response(
            version,
            ServerState::TxStreaming,
            open,
            request,
            MessageModel::Record(fields),
        ) == Some((ServerState::TxStreaming, open)),
        (request is PullAll || request is Pull || request is DiscardAll || request is Discard
            || request is RunWithMetadata) ==> on_response(
            version,
            ServerState::TxStreaming,
            open,
            request,
            MessageModel::Failure(md),
        ) == Some((ServerState::Failed, open)),
{
}

/// An acknowledged failure leaves the server ready; a `FAILURE` to the acknowledgement
/// makes the connection defunct.
pub proof fn law_ack_failure_response(version: u32, open: nat, md: Seq<(ValueModel, ValueModel)>)
    ensures
        on_response(
            version,
            ServerState::Failed,
            open,
            MessageModel::AckFailure,
            MessageModel::Success(md),
        ) == Some((ServerState::Ready, open)),
        on_response(
            version,
            ServerState::Failed,
            open,
            MessageModel::AckFailure,
            MessageModel::Failure(md),
        ) == Some((ServerState::Defunct, open)),
{
}

/// `has_more` reads the `has_more` entry of a summary's metadata: true exactly when the
/// first entry with that key holds the boolean `true`.
pub proof fn law_has_more(md: Seq<(ValueModel, ValueModel)>, i: int)
    requires
        0 <= i < md.len(),
        md[i].0 == ValueModel::String("has_more"@),
        forall|j: int| 0 <= j < i ==> md[j].0 != ValueModel::String("has_more"@),
    ensures
        has_more(md) <==> md[i].1 == ValueModel::Boolean(true),
{
    crate::roundtrip::lemma_find_key_skip(md, ValueModel::String("has_more"@), i);
}

/// A record answering a pull keeps the pull at the front of the queue, since more
/// records or a summary follow; a summary, a failure or an ignored answer takes the
/// request off. Outside an interrupted server every answer is handed back as it came.
pub proof fn law_queue_and_reply(
    state: ServerState,
    request: MessageModel,
    md: Seq<(ValueModel, ValueModel)>,
    fields: Seq<ValueModel>,
    response: MessageModel,
)
    ensures
        (state is Streaming || state is TxStreaming) && (request is PullAll || request is Pull)
            ==> keeps_request(state, request, MessageModel::Record(fields)),
        !keeps_request(state, request, MessageModel::Success(md)),
        !keeps_request(state, request, MessageModel::Failure(md)),
        !keeps_request(state, request, MessageModel::Ignored),
        !(state is Interrupted) ==> reply_of(state, request, response) == response,
{
}

} // verus!

