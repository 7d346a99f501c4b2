//! Codec tests: exact wire bytes, round trips, and decode errors.

use resp_core::protocol::{encode, parse_data_type, DataType, DecodeError};

fn frames_equal(a: &DataType, b: &DataType) -> bool {
    match (a, b) {
        (DataType::SimpleString(x), DataType::SimpleString(y)) => x == y,
        (DataType::SimpleError(x), DataType::SimpleError(y)) => x == y,
        (DataType::Integer(x), DataType::Integer(y)) => x == y,
        (DataType::BulkString(x), DataType::BulkString(y)) => x == y,
        (DataType::NullBulkString, DataType::NullBulkString) => true,
        (DataType::Array(xs), DataType::Array(ys)) => {
            xs.len() == ys.len() && xs.iter().zip(ys.iter()).all(|(x, y)| frames_equal(x, y))
        },
        _ => false,
    }
}

fn round_trips(frame: DataType) {
    let wire = encode(&frame);
    let (decoded, used) = parse_data_type(&wire, 0).expect("decoding an encoding must succeed");
    assert_eq!(used, wire.len());
    assert!(frames_equal(&frame, &decoded));
}

#[test]
fn encode_simple_string_exact_bytes() {
    let wire = encode(&DataType::SimpleString(b"OK".to_vec()));
    assert_eq!(wire, b"+OK\r\n".to_vec());
}

#[test]
fn encode_integer_exact_bytes() {
    assert_eq!(encode(&DataType::Integer(42)), b":42\r\n".to_vec());
    assert_eq!(encode(&DataType::Integer(-7)), b":-7\r\n".to_vec());
    assert_eq!(encode(&DataType::Integer(0)), b":0\r\n".to_vec());
}

#[test]
fn encode_bulk_and_null_exact_bytes() {
    assert_eq!(encode(&DataType::BulkString(b"hey".to_vec())), b"$3\r\nhey\r\n".to_vec());
    assert_eq!(encode(&DataType::BulkString(Vec::new())), b"$0\r\n\r\n".to_vec());
    assert_eq!(encode(&DataType::NullBulkString), b"$-1\r\n".to_vec());
}

#[test]
fn encode_array_exact_bytes() {
    let frame = DataType::Array(vec![
        DataType::BulkString(b"ECHO".to_vec()),
        DataType::BulkString(b"hey".to_vec()),
    ]);
    assert_eq!(encode(&frame), b"*2\r\n$4\r\nECHO\r\n$3\r\nhey\r\n".to_vec());
}

#[test]
fn round_trip_simple_frames() {
    round_trips(DataType::SimpleString(b"PONG".to_vec()));
    round_trips(DataType::SimpleError(b"ERR oops".to_vec()));
    round_trips(DataType::Integer(i64::MAX));
    round_trips(DataType::Integer(i64::MIN));
    round_trips(DataType::BulkString(b"hello".to_vec()));
    round_trips(DataType::BulkString(Vec::new()));
    round_trips(DataType::NullBulkString);
}

#[test]
fn round_trip_binary_bulk_string() {
    round_trips(DataType::BulkString(b"a\r\nb\x00\xff".to_vec()));
}

#[test]
fn round_trip_nested_array() {
    round_trips(DataType::Array(vec![
        DataType::BulkString(b"outer".to_vec()),
        DataType::Array(vec![
            DataType::SimpleString(b"inner".to_vec()),
            DataType::Integer(-12345),
            DataType::NullBulkString,
        ]),
        DataType::Array(Vec::new()),
    ]));
}

#[test]
fn bulk_declared_length_too_short_is_malformed() {
    let wire = b"$2\r\nhey\r\n".to_vec();
    assert!(matches!(parse_data_type(&wire, 0), Err(DecodeError::Malformed)));
}

#[test]
fn bulk_declared_length_too_long_is_incomplete() {
    let wire = b"$5\r\nhey\r\n".to_vec();
    assert!(matches!(parse_data_type(&wire, 0), Err(DecodeError::Incomplete)));
}

#[test]
fn unknown_marker_is_malformed() {
    let wire = b"!boom\r\n".to_vec();
    assert!(matches!(parse_data_type(&wire, 0), Err(DecodeError::Malformed)));
}

#[test]
fn truncated_frame_is_incomplete() {
    assert!(matches!(parse_data_type(&b"+PON".to_vec(), 0), Err(DecodeError::Incomplete)));
    assert!(matches!(parse_data_type(&b"*2\r\n$4\r\nECHO\r\n".to_vec(), 0), Err(DecodeError::Incomplete)));
    assert!(matches!(parse_data_type(&Vec::new(), 0), Err(DecodeError::Incomplete)));
}

#[test]
fn integer_overflow_is_malformed() {
    let wire = b":9223372036854775808\r\n".to_vec();
    assert!(matches!(parse_data_type(&wire, 0), Err(DecodeError::Malformed)));
    let wire = b":12a\r\n".to_vec();
    assert!(matches!(parse_data_type(&wire, 0), Err(DecodeError::Malformed)));
}

#[test]
fn integer_minimum_parses() {
    let wire = b":-9223372036854775808\r\n".to_vec();
    let (frame, used) = parse_data_type(&wire, 0).unwrap();
    assert_eq!(used, wire.len());
    assert!(frames_equal(&frame, &DataType::Integer(i64::MIN)));
}

#[test]
fn decoder_consumes_one_frame_only() {
    let wire = b"+PONG\r\n:5\r\n".to_vec();
    let (first, used) = parse_data_type(&wire, 0).unwrap();
    assert!(frames_equal(&first, &DataType::SimpleString(b"PONG".to_vec())));
    assert_eq!(used, 7);
    let (second, end) = parse_data_type(&wire, used).unwrap();
    assert!(frames_equal(&second, &DataType::Integer(5)));
    assert_eq!(end, wire.len());
}
