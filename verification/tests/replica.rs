//! Handshake tests: the strict order of the four bootstrap exchanges.

use resp_core::handshake::{handshake_request, handshake_step, HandshakeState};
use resp_core::protocol::{encode, DataType};

fn simple(s: &[u8]) -> DataType {
    DataType::SimpleString(s.to_vec())
}

/// Drives the handshake against canned replies, collecting the wire bytes of
/// every request actually sent, exactly as the replica would send them.
fn drive(port: u16, replies: &[DataType]) -> (Vec<Vec<u8>>, bool) {
    let mut state = HandshakeState::AwaitPong;
    let mut sent: Vec<Vec<u8>> = Vec::new();
    let mut replies = replies.iter();
    loop {
        let request = match handshake_request(&state, port) {
            Some(request) => request,
            None => return (sent, true),
        };
        sent.push(encode(&request));
        let reply = match replies.next() {
            Some(reply) => reply,
            None => return (sent, false),
        };
        state = match handshake_step(&state, reply) {
            Some(next) => next,
            None => return (sent, false),
        };
    }
}

#[test]
fn handshake_happy_path_sends_all_four_requests_in_order() {
    let replies = [
        simple(b"PONG"),
        simple(b"OK"),
        simple(b"OK"),
        simple(b"FULLRESYNC 8371b4fb1155b71f4a04d3e1bc3e18c4a990aeeb 0"),
    ];
    let (sent, done) = drive(6380, &replies);
    assert!(done);
    assert_eq!(
        sent,
        vec![
            b"*1\r\n$4\r\nPING\r\n".to_vec(),
            b"*3\r\n$8\r\nREPLCONF\r\n$14\r\nlistening-port\r\n$4\r\n6380\r\n".to_vec(),
            b"*3\r\n$8\r\nREPLCONF\r\n$4\r\ncapa\r\n$6\r\npsync2\r\n".to_vec(),
            b"*3\r\n$5\r\nPSYNC\r\n$1\r\n?\r\n$2\r\n-1\r\n".to_vec(),
        ]
    );
}

#[test]
fn handshake_aborts_on_wrong_first_reply() {
    // An error instead of PONG: only the PING request goes out.
    let replies = [DataType::SimpleError(b"ERR no".to_vec())];
    let (sent, done) = drive(6380, &replies);
    assert!(!done);
    assert_eq!(sent.len(), 1);
    assert_eq!(sent[0], b"*1\r\n$4\r\nPING\r\n".to_vec());
}

#[test]
fn handshake_aborts_on_reordered_replies() {
    // OK where PONG is expected: the run stops before the second request.
    let replies = [simple(b"OK"), simple(b"PONG")];
    let (sent, done) = drive(6380, &replies);
    assert!(!done);
    assert_eq!(sent.len(), 1);
}

#[test]
fn handshake_aborts_mid_sequence() {
    // The third reply is wrong: exactly three requests have been sent.
    let replies = [simple(b"PONG"), simple(b"OK"), simple(b"NOPE")];
    let (sent, done) = drive(6380, &replies);
    assert!(!done);
    assert_eq!(sent.len(), 3);
}

#[test]
fn handshake_requires_fullresync_prefix() {
    let replies = [
        simple(b"PONG"),
        simple(b"OK"),
        simple(b"OK"),
        simple(b"RESYNC nope"),
    ];
    let (sent, done) = drive(6380, &replies);
    assert!(!done);
    assert_eq!(sent.len(), 4);
}

#[test]
fn handshake_accepts_any_fullresync_suffix() {
    let replies = [
        simple(b"PONG"),
        simple(b"OK"),
        simple(b"OK"),
        simple(b"FULLRESYNC someotherid 42"),
    ];
    let (_, done) = drive(6380, &replies);
    assert!(done);
}

#[test]
fn handshake_step_rejects_non_simple_reply() {
    let state = HandshakeState::AwaitPong;
    let reply = DataType::BulkString(b"PONG".to_vec());
    assert_eq!(handshake_step(&state, &reply), None);
}

#[test]
fn handshake_stops_when_replies_run_out() {
    let replies = [simple(b"PONG")];
    let (sent, done) = drive(6380, &replies);
    assert!(!done);
    assert_eq!(sent.len(), 2);
}
