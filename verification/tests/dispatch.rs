//! Dispatcher tests: the command table of the protocol, exercised end to end
//! through dispatch and the reply encoder.

use resp_core::commands::{dispatch, encode_reply, Reply, ReplicationConfig};
use resp_core::protocol::DataType;
use resp_core::session::session_step;
use resp_core::store::Store;

fn request(parts: &[&[u8]]) -> DataType {
    DataType::Array(parts.iter().map(|p| DataType::BulkString(p.to_vec())).collect())
}

fn master_config() -> ReplicationConfig {
    ReplicationConfig {
        is_replica: false,
        replication_id: b"8371b4fb1155b71f4a04d3e1bc3e18c4a990aeeb".to_vec(),
        replication_offset: 0,
    }
}

fn reply_bytes(req: &DataType, store: &mut Store, config: &ReplicationConfig, now: u64) -> Vec<u8> {
    let reply = dispatch(req, store, config, now);
    encode_reply(&reply)
}

#[test]
fn ping_replies_pong() {
    let mut store = Store::new();
    let out = reply_bytes(&request(&[b"PING"]), &mut store, &master_config(), 0);
    assert_eq!(out, b"+PONG\r\n".to_vec());
}

#[test]
fn command_names_match_case_insensitively() {
    let mut store = Store::new();
    let config = master_config();
    assert_eq!(reply_bytes(&request(&[b"PiNg"]), &mut store, &config, 0), b"+PONG\r\n".to_vec());
    assert_eq!(reply_bytes(&request(&[b"echo", b"x"]), &mut store, &config, 0), b"$1\r\nx\r\n".to_vec());
}

#[test]
fn echo_replies_argument() {
    let mut store = Store::new();
    let out = reply_bytes(&request(&[b"ECHO", b"hey"]), &mut store, &master_config(), 0);
    assert_eq!(out, b"$3\r\nhey\r\n".to_vec());
}

#[test]
fn echo_without_argument_is_an_error() {
    let mut store = Store::new();
    let out = reply_bytes(&request(&[b"ECHO"]), &mut store, &master_config(), 0);
    assert_eq!(out, b"-ERR wrong number of arguments\r\n".to_vec());
}

#[test]
fn set_then_get_round_trip() {
    let mut store = Store::new();
    let config = master_config();
    let out = reply_bytes(&request(&[b"SET", b"foo", b"bar"]), &mut store, &config, 0);
    assert_eq!(out, b"+OK\r\n".to_vec());
    let out = reply_bytes(&request(&[b"GET", b"foo"]), &mut store, &config, 0);
    assert_eq!(out, b"$3\r\nbar\r\n".to_vec());
}

#[test]
fn get_missing_key_replies_null() {
    let mut store = Store::new();
    let out = reply_bytes(&request(&[b"GET", b"missing"]), &mut store, &master_config(), 0);
    assert_eq!(out, b"$-1\r\n".to_vec());
}

#[test]
fn set_with_px_expires() {
    let mut store = Store::new();
    let config = master_config();
    let out = reply_bytes(&request(&[b"SET", b"k", b"v", b"px", b"100"]), &mut store, &config, 0);
    assert_eq!(out, b"+OK\r\n".to_vec());
    assert_eq!(reply_bytes(&request(&[b"GET", b"k"]), &mut store, &config, 50), b"$1\r\nv\r\n".to_vec());
    assert_eq!(reply_bytes(&request(&[b"GET", b"k"]), &mut store, &config, 100), b"$-1\r\n".to_vec());
}

#[test]
fn set_overwrite_clears_px() {
    let mut store = Store::new();
    let config = master_config();
    reply_bytes(&request(&[b"SET", b"k", b"v1", b"px", b"10"]), &mut store, &config, 0);
    reply_bytes(&request(&[b"SET", b"k", b"v2"]), &mut store, &config, 0);
    assert_eq!(reply_bytes(&request(&[b"GET", b"k"]), &mut store, &config, 10), b"$2\r\nv2\r\n".to_vec());
}

#[test]
fn set_with_bad_px_is_an_error_and_stores_nothing() {
    let mut store = Store::new();
    let config = master_config();
    let out = reply_bytes(&request(&[b"SET", b"k", b"v", b"px", b"soon"]), &mut store, &config, 0);
    assert_eq!(out, b"-ERR invalid expiry\r\n".to_vec());
    assert_eq!(reply_bytes(&request(&[b"GET", b"k"]), &mut store, &config, 0), b"$-1\r\n".to_vec());
}

#[test]
fn info_replication_reports_master_role() {
    let mut store = Store::new();
    let out = reply_bytes(&request(&[b"INFO", b"replication"]), &mut store, &master_config(), 0);
    let text = b"role:master\r\nmaster_replid:8371b4fb1155b71f4a04d3e1bc3e18c4a990aeeb\r\nmaster_repl_offset:0";
    let mut expected = format!("${}\r\n", text.len()).into_bytes();
    expected.extend_from_slice(text);
    expected.extend_from_slice(b"\r\n");
    assert_eq!(out, expected);
}

#[test]
fn info_replication_reports_slave_role() {
    let mut store = Store::new();
    let config = ReplicationConfig { is_replica: true, ..master_config() };
    let out = reply_bytes(&request(&[b"INFO", b"replication"]), &mut store, &config, 0);
    let found = out.windows(10).any(|w| w == b"role:slave");
    assert!(found, "reply should carry role:slave: {:?}", out);
}

#[test]
fn info_other_section_is_an_error() {
    let mut store = Store::new();
    let out = reply_bytes(&request(&[b"INFO", b"keyspace"]), &mut store, &master_config(), 0);
    assert_eq!(out, b"-ERR unknown INFO section\r\n".to_vec());
}

#[test]
fn replconf_always_acknowledges() {
    let mut store = Store::new();
    let out = reply_bytes(
        &request(&[b"REPLCONF", b"listening-port", b"6380"]),
        &mut store,
        &master_config(),
        0,
    );
    assert_eq!(out, b"+OK\r\n".to_vec());
}

#[test]
fn psync_sends_fullresync_and_snapshot() {
    let mut store = Store::new();
    let reply = dispatch(&request(&[b"PSYNC", b"?", b"-1"]), &mut store, &master_config(), 0);
    let (status, payload) = match reply {
        Reply::FullResync(status, payload) => (status, payload),
        other => panic!("expected a full-resync reply, got {:?}", other),
    };
    match status {
        DataType::SimpleString(text) => assert_eq!(
            text,
            b"FULLRESYNC 8371b4fb1155b71f4a04d3e1bc3e18c4a990aeeb 0".to_vec()
        ),
        other => panic!("expected a simple-string status, got {:?}", other),
    }
    assert_eq!(payload.len(), 88);
    assert_eq!(&payload[0..5], b"REDIS");
    // The wire form: the status line, then the payload behind a length header
    // with no trailing terminator.
    let out = reply_bytes(&request(&[b"psync"]), &mut store, &master_config(), 0);
    assert!(out.starts_with(b"+FULLRESYNC 8371b4fb1155b71f4a04d3e1bc3e18c4a990aeeb 0\r\n$88\r\n"));
    assert!(!out.ends_with(b"\r\n"));
    assert_eq!(out.len(), b"+FULLRESYNC 8371b4fb1155b71f4a04d3e1bc3e18c4a990aeeb 0\r\n$88\r\n".len() + 88);
}

#[test]
fn unknown_command_is_an_error() {
    let mut store = Store::new();
    let out = reply_bytes(&request(&[b"FLUSHALL"]), &mut store, &master_config(), 0);
    assert_eq!(out, b"-ERR unknown command\r\n".to_vec());
}

#[test]
fn non_array_request_is_an_error() {
    let mut store = Store::new();
    let out = reply_bytes(&DataType::SimpleString(b"hi".to_vec()), &mut store, &master_config(), 0);
    assert_eq!(out, b"-ERR malformed request\r\n".to_vec());
}

#[test]
fn session_step_serves_pipelined_requests() {
    let mut store = Store::new();
    let config = master_config();
    let wire = b"*3\r\n$3\r\nSET\r\n$3\r\nfoo\r\n$3\r\nbar\r\n*2\r\n$3\r\nGET\r\n$3\r\nfoo\r\n".to_vec();
    let (reply1, next) = session_step(&wire, 0, &mut store, &config, 0).unwrap();
    assert_eq!(reply1, b"+OK\r\n".to_vec());
    let (reply2, end) = session_step(&wire, next, &mut store, &config, 0).unwrap();
    assert_eq!(reply2, b"$3\r\nbar\r\n".to_vec());
    assert_eq!(end, wire.len());
}
