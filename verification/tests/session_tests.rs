use bolt_proto::client::{
    accept_version, begin_request, collect_pull_answer, discard_request, handshake_request,
    hello_request, pull_request, reset_answer, route_request, run_request, simple_request,
    ConnectionError, SimpleRequest,
};
use bolt_proto::message::{Failure, Hello, Init, Message, Pull, Record, Run, Success};
use bolt_proto::server_state::ServerState;
use bolt_proto::session::{CommunicationError, InputError, Session};
use bolt_proto::value::BoltValue;
use bolt_proto::value_map::ValueMap;
use bolt_proto::version::{format_version, format_versions, is_compatible, V1_0, V3_0, V4_3, V4_4};

fn string(s: &str) -> BoltValue {
    BoltValue::String(s.to_string())
}

fn metadata(entries: Vec<(&str, BoltValue)>) -> ValueMap {
    ValueMap::from_entries(entries.into_iter().map(|(k, v)| (k.to_string(), v)).collect())
}

fn success() -> Message {
    Message::Success(Success::new(ValueMap::new()))
}

fn failure() -> Message {
    Message::Failure(Failure::new(metadata(vec![("code", string("Neo.ClientError"))])))
}

fn record() -> Message {
    Message::Record(Record::new(vec![BoltValue::Integer(3458376)]))
}

/// Sends a request the way a client does: checked, then recorded as sent.
fn send(session: &mut Session, message: Message) -> Result<(), CommunicationError> {
    let message = session.check_request(message)?;
    session.record_sent(message);
    Ok(())
}

fn ready_session(version: u32) -> Session {
    let mut session = Session::new(version);
    let hello = hello_request(version, metadata(vec![("user_agent", string("test/1"))])).unwrap();
    send(&mut session, hello).unwrap();
    assert_eq!(session.take_response(success()).unwrap(), success());
    assert_eq!(session.server_state(), ServerState::Ready);
    session
}

#[test]
fn handshake_bytes() {
    let bytes = handshake_request(&[V4_4, 0x0003_0404, V1_0, 0]);
    assert_eq!(
        bytes,
        vec![
            0x60, 0x60, 0xB0, 0x17, 0, 0, 4, 4, 0, 3, 4, 4, 0, 0, 0, 1, 0, 0, 0, 0
        ]
    );
}

#[test]
fn handshake_agrees_on_an_offered_version() {
    let session = accept_version(0x0204, &[0x0003_0404, 0, 0, 0]).unwrap();
    assert_eq!(session.version(), 0x0204);
    assert_eq!(session.server_state(), ServerState::Connected);
    assert!(matches!(
        accept_version(0, &[V1_0, 0, 0, 0]),
        Err(ConnectionError::HandshakeFailed([1, 0, 0, 0]))
    ));
    assert!(matches!(
        accept_version(V3_0, &[V1_0, V4_4, 0, 0]),
        Err(ConnectionError::HandshakeFailed(_))
    ));
}

#[test]
fn compatibility_with_ranges() {
    assert!(is_compatible(0x0104, 0x0003_0404));
    assert!(is_compatible(0x0004, 0x0005_0304));
    assert!(!is_compatible(0x0004, 0x0002_0404));
    assert!(!is_compatible(0x0103, 0x0001_0104));
    assert!(is_compatible(V1_0, V1_0));
}

#[test]
fn versions_as_text() {
    assert_eq!(format_version(V4_4), "4.4");
    assert_eq!(format_version(0x0003_0404), "4.1-4");
    assert_eq!(format_version(0x0005_0304), "4.0-3");
    assert_eq!(format_version(0x00FF_FFFF), "255.0-255");
    assert_eq!(format_versions(&[V4_4, 0x0003_0404, V1_0, 0]), "4.4, 4.1-4, 1.0, 0.0");
    assert_eq!(format_versions(&[]), "");
}

#[test]
fn v1_init_takes_the_user_agent_out() {
    let message = hello_request(
        V1_0,
        metadata(vec![
            ("user_agent", string("bolt-client/X.Y.Z")),
            ("scheme", string("basic")),
        ]),
    )
    .unwrap();
    assert_eq!(
        message,
        Message::Init(Init::new(
            "bolt-client/X.Y.Z".to_string(),
            metadata(vec![("scheme", string("basic"))])
        ))
    );
    assert_eq!(
        hello_request(V1_0, metadata(vec![("scheme", string("basic"))])),
        Err(CommunicationError::InvalidInput(InputError::MissingUserAgent))
    );
    assert_eq!(
        hello_request(V1_0, metadata(vec![("user_agent", BoltValue::Integer(1))])),
        Err(CommunicationError::InvalidInput(InputError::UserAgentNotString))
    );
    assert_eq!(
        hello_request(V3_0, ValueMap::new()),
        Ok(Message::Hello(Hello::new(ValueMap::new())))
    );
    assert_eq!(
        hello_request(0x0505, ValueMap::new()),
        Err(CommunicationError::UnsupportedOperation(0x0505))
    );
}

#[test]
fn requests_follow_the_version() {
    assert_eq!(pull_request(V3_0, None), Ok(Message::PullAll));
    assert_eq!(
        pull_request(V4_4, Some(metadata(vec![("n", BoltValue::Integer(1))]))),
        Ok(Message::Pull(Pull::new(metadata(vec![("n", BoltValue::Integer(1))]))))
    );
    assert_eq!(discard_request(V1_0, None), Ok(Message::DiscardAll));
    assert!(matches!(discard_request(V4_3, None), Ok(Message::Discard(_))));
    assert_eq!(
        run_request(V1_0, "RETURN 1;".to_string(), None, None),
        Ok(Message::Run(Run::new("RETURN 1;".to_string(), ValueMap::new())))
    );
    assert!(matches!(
        run_request(V4_4, "RETURN 1;".to_string(), None, None),
        Ok(Message::RunWithMetadata(_))
    ));
    assert_eq!(
        begin_request(V1_0, None),
        Err(CommunicationError::UnsupportedOperation(V1_0))
    );
    assert_eq!(
        simple_request(V3_0, SimpleRequest::AckFailure),
        Err(CommunicationError::UnsupportedOperation(V3_0))
    );
    assert_eq!(simple_request(V1_0, SimpleRequest::AckFailure), Ok(Message::AckFailure));
    assert_eq!(simple_request(V4_4, SimpleRequest::Commit), Ok(Message::Commit));
    assert_eq!(
        simple_request(V1_0, SimpleRequest::Goodbye),
        Err(CommunicationError::UnsupportedOperation(V1_0))
    );
}

#[test]
fn route_database_by_version() {
    let route = route_request(V4_3, ValueMap::new(), vec![], Some(metadata(vec![("db", string("neo4j"))])))
        .unwrap();
    match route {
        Message::Route(r) => assert_eq!(r.db(), &Some("neo4j".to_string())),
        other => panic!("unexpected {:?}", other),
    }
    let route = route_request(V4_3, ValueMap::new(), vec![], Some(metadata(vec![("db", BoltValue::Null)])))
        .unwrap();
    match route {
        Message::Route(r) => assert_eq!(r.db(), &None),
        other => panic!("unexpected {:?}", other),
    }
    assert_eq!(
        route_request(V4_3, ValueMap::new(), vec![], Some(metadata(vec![("db", BoltValue::Integer(1))]))),
        Err(CommunicationError::InvalidInput(InputError::DbNotStringOrNull))
    );
    assert!(matches!(
        route_request(V4_4, ValueMap::new(), vec![], None),
        Ok(Message::RouteWithMetadata(_))
    ));
    assert_eq!(
        route_request(V4_0_VERSION, ValueMap::new(), vec![], None),
        Err(CommunicationError::UnsupportedOperation(V4_0_VERSION))
    );
}

const V4_0_VERSION: u32 = 0x0004;

#[test]
fn session_init_success() {
    let session = ready_session(V1_0);
    assert_eq!(session.server_state(), ServerState::Ready);
}

#[test]
fn session_init_failure() {
    let mut session = Session::new(V1_0);
    let init = hello_request(V1_0, metadata(vec![("user_agent", string("test/1"))])).unwrap();
    send(&mut session, init).unwrap();
    assert_eq!(session.take_response(failure()).unwrap(), failure());
    assert_eq!(session.server_state(), ServerState::Defunct);
    assert!(matches!(
        send(&mut session, Message::Reset),
        Err(CommunicationError::InvalidState { state: ServerState::Defunct, .. })
    ));
}

#[test]
fn session_run_and_pull() {
    let mut session = ready_session(V1_0);
    send(&mut session, run_request(V1_0, "RETURN 3458376 as n;".to_string(), None, None).unwrap()).unwrap();
    assert_eq!(session.take_response(success()).unwrap(), success());
    assert_eq!(session.server_state(), ServerState::Streaming);
    send(&mut session, Message::PullAll).unwrap();
    let mut records = Vec::new();
    assert_eq!(collect_pull_answer(&mut records, session.take_response(record()).unwrap()), None);
    assert_eq!(session.server_state(), ServerState::Streaming);
    let done = collect_pull_answer(&mut records, session.take_response(success()).unwrap());
    assert_eq!(done, Some(success()));
    assert_eq!(records, vec![Record::new(vec![BoltValue::Integer(3458376)])]);
    assert_eq!(session.server_state(), ServerState::Ready);
}

#[test]
fn pull_with_more_records_to_come() {
    let mut session = ready_session(V4_4);
    send(&mut session, run_request(V4_4, "RETURN 1;".to_string(), None, None).unwrap()).unwrap();
    session.take_response(success()).unwrap();
    send(&mut session, pull_request(V4_4, None).unwrap()).unwrap();
    let more = Message::Success(Success::new(metadata(vec![("has_more", BoltValue::Boolean(true))])));
    session.take_response(more).unwrap();
    assert_eq!(session.server_state(), ServerState::Streaming);
    send(&mut session, pull_request(V4_4, None).unwrap()).unwrap();
    let done = Message::Success(Success::new(metadata(vec![("has_more", BoltValue::Boolean(false))])));
    session.take_response(done).unwrap();
    assert_eq!(session.server_state(), ServerState::Ready);
}

#[test]
fn session_ack_failure_after_ignored() {
    let mut session = ready_session(V1_0);
    send(&mut session, run_request(V1_0, "syntax error".to_string(), None, None).unwrap()).unwrap();
    assert_eq!(session.take_response(failure()).unwrap(), failure());
    assert_eq!(session.server_state(), ServerState::Failed);
    send(&mut session, Message::PullAll).unwrap();
    assert_eq!(session.take_response(Message::Ignored).unwrap(), Message::Ignored);
    assert_eq!(session.server_state(), ServerState::Failed);
    let mut records = vec![Record::new(vec![])];
    assert_eq!(collect_pull_answer(&mut records, Message::Ignored), Some(Message::Ignored));
    assert!(records.is_empty());
    send(&mut session, Message::AckFailure).unwrap();
    assert_eq!(session.take_response(success()).unwrap(), success());
    assert_eq!(session.server_state(), ServerState::Ready);
}

#[test]
fn session_reset_ignores_earlier_requests() {
    let mut session = ready_session(V1_0);
    send(&mut session, run_request(V1_0, "RETURN 1;".to_string(), None, None).unwrap()).unwrap();
    // Pipelined: recorded as sent without waiting for the RUN's response.
    session.record_sent(Message::PullAll);
    send(&mut session, Message::Reset).unwrap();
    assert_eq!(session.server_state(), ServerState::Interrupted);
    assert_eq!(session.take_response(success()).unwrap(), Message::Ignored);
    assert_eq!(session.take_response(record()).unwrap(), Message::Ignored);
    assert_eq!(session.take_response(success()).unwrap(), Message::Ignored);
    assert_eq!(reset_answer(Message::Ignored), None);
    let answer = session.take_response(success()).unwrap();
    assert_eq!(reset_answer(answer), Some(success()));
    assert_eq!(session.server_state(), ServerState::Ready);
}

#[test]
fn transactions_count_open_results() {
    let mut session = ready_session(V3_0);
    send(&mut session, begin_request(V3_0, None).unwrap()).unwrap();
    session.take_response(success()).unwrap();
    assert_eq!(session.server_state(), ServerState::TxReady);
    send(&mut session, run_request(V3_0, "RETURN 1;".to_string(), None, None).unwrap()).unwrap();
    session.take_response(success()).unwrap();
    assert_eq!(session.server_state(), ServerState::TxStreaming);
    send(&mut session, run_request(V3_0, "RETURN 2;".to_string(), None, None).unwrap()).unwrap();
    session.take_response(success()).unwrap();
    send(&mut session, Message::PullAll).unwrap();
    session.take_response(success()).unwrap();
    assert_eq!(session.server_state(), ServerState::TxReady);
    send(&mut session, simple_request(V3_0, SimpleRequest::Commit).unwrap()).unwrap();
    session.take_response(success()).unwrap();
    assert_eq!(session.server_state(), ServerState::Ready);
}

#[test]
fn session_commit_without_begin() {
    let mut session = ready_session(V3_0);
    let result = send(&mut session, Message::Commit);
    assert!(matches!(
        result,
        Err(CommunicationError::InvalidState { state: ServerState::Ready, message: Message::Commit })
    ));
    assert_eq!(session.server_state(), ServerState::Defunct);
}

#[test]
fn session_goodbye_disconnects() {
    let mut session = ready_session(V3_0);
    send(&mut session, Message::Goodbye).unwrap();
    assert_eq!(session.server_state(), ServerState::Disconnected);
}

#[test]
fn unexpected_responses_make_the_connection_defunct() {
    let mut session = ready_session(V3_0);
    let result = session.take_response(success());
    assert_eq!(
        result,
        Err(CommunicationError::InvalidResponse {
            state: ServerState::Ready,
            request: None,
            response: success()
        })
    );
    assert_eq!(session.server_state(), ServerState::Defunct);

    let mut session = ready_session(V3_0);
    send(&mut session, run_request(V3_0, "RETURN 1;".to_string(), None, None).unwrap()).unwrap();
    assert!(matches!(
        session.take_response(record()),
        Err(CommunicationError::InvalidResponse { state: ServerState::Ready, request: Some(_), .. })
    ));
    assert_eq!(session.server_state(), ServerState::Defunct);
}

#[test]
fn session_v4_rollback_without_begin_is_answered() {
    let mut session = ready_session(V4_0_VERSION);
    send(&mut session, simple_request(V4_0_VERSION, SimpleRequest::Rollback).unwrap()).unwrap();
    assert_eq!(session.take_response(failure()).unwrap(), failure());
    assert_eq!(session.server_state(), ServerState::Failed);
}

#[test]
fn session_v4_commit_without_begin_is_answered() {
    let mut session = ready_session(V4_4);
    send(&mut session, Message::Commit).unwrap();
    assert_eq!(session.take_response(failure()).unwrap(), failure());
    assert_eq!(session.server_state(), ServerState::Failed);
}

#[test]
fn session_v3_rollback_without_begin_is_refused() {
    let mut session = ready_session(V3_0);
    assert!(matches!(
        send(&mut session, Message::Rollback),
        Err(CommunicationError::InvalidState { state: ServerState::Ready, message: Message::Rollback })
    ));
    assert_eq!(session.server_state(), ServerState::Defunct);
}
