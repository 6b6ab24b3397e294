use surrealdb_iroh::change::{Change, ChangeBatch, SyncMessage};
use surrealdb_iroh::peer::EndpointId;
use surrealdb_iroh::protocol::{
    frame, process_message, read_header, write_header, ClientAction, ClientEvent, ClientSession,
    FrameHeader, ServerAction, ServerEvent, ServerSession, ALPN, MAX_MESSAGE_SIZE, REQUEST_LIMIT,
};
use surrealdb_iroh::sync::{SyncManager, SyncState};
use surrealdb_iroh::{PROTOCOL_VERSION, SYNC_ALPN};

fn test_endpoint_id() -> EndpointId {
    EndpointId::from_bytes(iroh::SecretKey::generate().public().as_bytes()).unwrap()
}

fn manager_with(n: usize) -> SyncManager {
    let mut m = SyncManager::new(10_000);
    for _ in 0..n {
        m.record_change(Change::query("ns", "db", None));
    }
    m
}

#[test]
fn test_max_message_size_constant() {
    assert_eq!(MAX_MESSAGE_SIZE, 16 * 1024 * 1024);
    assert!(MAX_MESSAGE_SIZE < usize::MAX);
}

#[test]
fn test_message_size_limit_enforcement_logic() {
    let oversized = 17 * 1024 * 1024;
    let within_limit = 16 * 1024 * 1024;

    assert!(oversized > MAX_MESSAGE_SIZE);
    assert!(within_limit <= MAX_MESSAGE_SIZE);
    assert!(matches!(read_header(write_header(oversized)), FrameHeader::TooLarge));
    assert!(matches!(
        read_header(write_header(within_limit)),
        FrameHeader::Message(16777216)
    ));
}

#[test]
fn test_end_of_stream_marker() {
    let end_marker = u32::from_be_bytes([0, 0, 0, 0]);
    assert_eq!(end_marker, 0);
    assert!(matches!(read_header([0, 0, 0, 0]), FrameHeader::End));
}

#[test]
fn test_alpn_value() {
    assert_eq!(&ALPN, b"surrealdb/iroh-sync/1");
    assert_eq!(SYNC_ALPN, ALPN);
    assert_eq!(PROTOCOL_VERSION, 1);
}

#[test]
fn frames_carry_their_length_first() {
    assert_eq!(write_header(0x0102_0304), [1, 2, 3, 4]);
    assert_eq!(frame(&b"hi".to_vec()), vec![0, 0, 0, 2, b'h', b'i']);
}

#[test]
fn a_request_is_answered_with_the_changes_since() {
    let mut m = manager_with(5);
    let request = SyncMessage::Request { offset: 2, limit: None };
    let reply = process_message(&mut m, &request, 0).unwrap();
    match reply {
        SyncMessage::Response(batch) => {
            assert_eq!(batch.offset, 5);
            assert_eq!(batch.changes.len(), 3);
            assert!(batch.is_final);
        }
        _ => panic!("expected a response"),
    }
    let request = SyncMessage::Request { offset: 0, limit: Some(2) };
    match process_message(&mut m, &request, 0).unwrap() {
        SyncMessage::Response(batch) => {
            assert_eq!(batch.offset, 2);
            assert_eq!(batch.changes.len(), 2);
            assert!(!batch.is_final);
        }
        _ => panic!("expected a response"),
    }
}

#[test]
fn a_ping_is_answered_with_a_pong() {
    let mut m = manager_with(0);
    assert!(matches!(
        process_message(&mut m, &SyncMessage::Ping, 0).unwrap(),
        SyncMessage::Pong
    ));
}

#[test]
fn a_response_is_recorded_and_acknowledged() {
    let mut m = manager_with(1);
    let changes = vec![Change::query("n", "d", None), Change::query("n", "d", None)];
    let response = SyncMessage::Response(ChangeBatch::new(0, changes));
    let reply = process_message(&mut m, &response, 1).unwrap();
    assert!(matches!(reply, SyncMessage::Ack { .. }));
    assert_eq!(m.get_changes_since(0).len(), 3);
}

#[test]
fn a_server_session_answers_until_the_stream_ends() {
    let peer = test_endpoint_id();
    let mut m = manager_with(3);
    let mut s = ServerSession::new(peer);
    assert!(matches!(s.step(&mut m, ServerEvent::Opened), ServerAction::ReadHeader));
    assert!(matches!(
        s.step(&mut m, ServerEvent::Header([0, 0, 0, 9])),
        ServerAction::ReadBody(9)
    ));
    let request = SyncMessage::Request { offset: 0, limit: Some(REQUEST_LIMIT) };
    match s.step(&mut m, ServerEvent::Received(request)) {
        ServerAction::Send(SyncMessage::Response(batch)) => assert_eq!(batch.changes.len(), 3),
        _ => panic!("expected a response"),
    }
    assert!(matches!(s.step(&mut m, ServerEvent::Sent), ServerAction::ReadHeader));
    assert!(matches!(
        s.step(&mut m, ServerEvent::Header([0, 0, 0, 0])),
        ServerAction::Finish
    ));
    assert!(matches!(s.step(&mut m, ServerEvent::Closed), ServerAction::Done));
    assert!(matches!(m.get_peer_states()[0].state, SyncState::Synchronized));
}

#[test]
fn a_server_session_gives_up_on_a_message_that_is_too_large() {
    let mut m = manager_with(0);
    let mut s = ServerSession::new(test_endpoint_id());
    s.step(&mut m, ServerEvent::Opened);
    match s.step(&mut m, ServerEvent::Header([0xff, 0, 0, 0])) {
        ServerAction::Fail(e) => assert_eq!(
            e.message(),
            "connection failed: message size exceeds maximum allowed"
        ),
        _ => panic!("expected a failure"),
    }
}

#[test]
fn a_client_session_takes_changes_over() {
    let peer = test_endpoint_id();
    let mut m = manager_with(0);
    let mut s = ClientSession::new(peer);
    match s.step(&mut m, ClientEvent::Opened) {
        ClientAction::Send(SyncMessage::Request { offset, limit }) => {
            assert_eq!(offset, 0);
            assert_eq!(limit, Some(REQUEST_LIMIT));
        }
        _ => panic!("expected a request"),
    }
    assert!(matches!(s.step(&mut m, ClientEvent::Sent), ClientAction::ReadHeader));
    assert!(matches!(
        s.step(&mut m, ClientEvent::Header([0, 0, 1, 0])),
        ClientAction::ReadBody(256)
    ));
    let mut change = Change::query("n", "d", None);
    change.id = [0; 16];
    change.id[0] = 9;
    let batch = ChangeBatch::new(0, vec![change]).with_final();
    let next = s.step(&mut m, ClientEvent::Received(SyncMessage::Response(batch)));
    assert!(matches!(next, ClientAction::ReadHeader));
    assert_eq!(m.offset(), 9);
    let next = s.step(&mut m, ClientEvent::Received(SyncMessage::Ack { offset: 0 }));
    assert!(matches!(next, ClientAction::SendEnd([0, 0, 0, 0])));
    assert!(matches!(s.step(&mut m, ClientEvent::EndSent), ClientAction::Finish));
    assert!(matches!(s.step(&mut m, ClientEvent::Finished), ClientAction::Close));
    assert!(matches!(m.get_peer_states()[0].state, SyncState::Synchronized));
}

#[test]
fn a_client_session_reports_why_it_failed() {
    let peer = test_endpoint_id();
    let mut m = manager_with(0);
    let mut s = ClientSession::new(peer);
    match s.step(&mut m, ClientEvent::ConnectFailed("no route".to_string())) {
        ClientAction::Fail(e) => assert!(e.message().contains("no route")),
        _ => panic!("expected a failure"),
    }
}

#[test]
fn asking_again_gives_every_change_once() {
    let mut m = manager_with(25);
    let all: Vec<[u8; 16]> = m.get_changes_since(3).iter().map(|c| c.id).collect();
    let mut got: Vec<[u8; 16]> = Vec::new();
    let mut offset = 3;
    loop {
        let request = SyncMessage::Request { offset, limit: Some(7) };
        match process_message(&mut m, &request, 0).unwrap() {
            SyncMessage::Response(batch) => {
                got.extend(batch.changes.iter().map(|c| c.id));
                assert_eq!(batch.offset, offset + batch.changes.len() as u64);
                offset = batch.offset;
                if batch.is_final {
                    break;
                }
            }
            _ => panic!("expected a response"),
        }
    }
    assert_eq!(got, all);
    assert_eq!(offset, 25);
}

#[test]
fn an_acknowledgment_is_answered_with_the_local_offset() {
    let mut m = manager_with(4);
    let reply = process_message(&mut m, &SyncMessage::Ack { offset: 1 }, 4).unwrap();
    assert!(matches!(reply, SyncMessage::Ack { offset: 4 }));
    assert!(matches!(
        process_message(&mut m, &SyncMessage::Pong, 4).unwrap(),
        SyncMessage::Ping
    ));
}
