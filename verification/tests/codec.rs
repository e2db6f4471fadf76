use miniredis::handler::{parse_frame, parse_rdb_payload, rdb_frame_prefix};
use miniredis::serde::{tokenize, RESPRaw, RESPToken, RespError, Tok};
use miniredis::value::RedisValue;

fn bulk(s: &[u8]) -> RedisValue {
    RedisValue::BulkString(s.to_vec())
}

#[test]
fn serialize_simple_string() {
    let v = RedisValue::SimpleString(b"PONG".to_vec());
    assert_eq!(v.serialize(), b"+PONG\r\n".to_vec());
}

#[test]
fn serialize_simple_error() {
    let v = RedisValue::SimpleError(b"oops".to_vec());
    assert_eq!(v.serialize(), b"-oops\r\n".to_vec());
}

#[test]
fn serialize_bulk_string() {
    let v = bulk(b"hello");
    assert_eq!(v.serialize(), b"$5\r\nhello\r\n".to_vec());
}

#[test]
fn serialize_empty_bulk_string() {
    let v = bulk(b"");
    assert_eq!(v.serialize(), b"$0\r\n\r\n".to_vec());
}

#[test]
fn serialize_null_bulk_string() {
    let v = RedisValue::NullBulkString;
    assert_eq!(v.serialize(), b"$-1\r\n".to_vec());
}

#[test]
fn serialize_array() {
    let v = RedisValue::Array(vec![bulk(b"ECHO"), bulk(b"hi")]);
    assert_eq!(v.serialize(), b"*2\r\n$4\r\nECHO\r\n$2\r\nhi\r\n".to_vec());
}

#[test]
fn serialize_nested_array() {
    let v = RedisValue::Array(vec![
        RedisValue::Array(vec![bulk(b"a")]),
        RedisValue::NullBulkString,
    ]);
    assert_eq!(v.serialize(), b"*2\r\n*1\r\n$1\r\na\r\n$-1\r\n".to_vec());
}

#[test]
fn tokenize_round_trips_every_variant() {
    let values = vec![
        RedisValue::SimpleString(b"".to_vec()),
        RedisValue::SimpleString(b"OK".to_vec()),
        bulk(b""),
        bulk(b"with\rodd\nbytes"),
        RedisValue::NullBulkString,
        RedisValue::Array(vec![]),
        RedisValue::Array(vec![bulk(b"SET"), bulk(b"k"), bulk(b"v")]),
        RedisValue::Array(vec![
            RedisValue::Array(vec![bulk(b"x"), RedisValue::NullBulkString]),
            RedisValue::SimpleString(b"done".to_vec()),
        ]),
    ];
    for v in values {
        let wire = v.serialize();
        let (parsed, consumed) = parse_frame(&wire)
            .expect("well-formed frame")
            .expect("complete frame");
        assert_eq!(consumed, wire.len());
        assert_eq!(parsed, v);
    }
}

#[test]
fn every_proper_prefix_is_incomplete() {
    let v = RedisValue::Array(vec![bulk(b"ECHO"), bulk(b"hello")]);
    let wire = v.serialize();
    for k in 0..wire.len() {
        let prefix = wire[..k].to_vec();
        match parse_frame(&prefix) {
            Ok(None) => {}
            other => panic!("prefix of {} bytes gave {:?}", k, other.map(|o| o.is_some())),
        }
    }
}

#[test]
fn null_bulk_prefixes_are_incomplete() {
    let wire = b"$-1\r\n";
    for k in 0..wire.len() {
        assert!(matches!(tokenize(&wire[..k].to_vec(), 0), Ok(None)));
    }
    let r = tokenize(&wire.to_vec(), 0).unwrap().unwrap();
    assert_eq!(r.1, 5);
    assert!(matches!(r.0, RESPRaw::NullBulkString(5)));
}

#[test]
fn tokenize_rejects_unknown_prefix() {
    assert_eq!(tokenize(&b"!boom\r\n".to_vec(), 0), Err(RespError::InvalidIdentifier));
}

#[test]
fn tokenize_rejects_negative_bulk_length() {
    assert_eq!(tokenize(&b"$-2\r\n".to_vec(), 0), Err(RespError::InvalidBulkLength));
}

#[test]
fn tokenize_rejects_negative_array_length() {
    assert_eq!(tokenize(&b"*-1\r\n".to_vec(), 0), Err(RespError::InvalidArrayLength));
}

#[test]
fn tokenize_rejects_non_numeric_length() {
    assert_eq!(tokenize(&b"$2x\r\nab\r\n".to_vec(), 0), Err(RespError::BadLengthWord));
}

#[test]
fn tokenize_rejects_oversized_length() {
    assert_eq!(tokenize(&b"$2147483648\r\nxx\r\n".to_vec(), 0), Err(RespError::BadLengthWord));
}

#[test]
fn tokenize_accepts_leading_zeros_in_length() {
    let r = tokenize(&b"$02\r\nab\r\n".to_vec(), 0).unwrap().unwrap();
    assert_eq!(r.1, 9);
    match r.0 {
        RESPRaw::BulkString(t) => {
            assert_eq!((t.0, t.1), (5, 7));
        }
        other => panic!("unexpected token {:?}", other),
    }
}

#[test]
fn tokenize_leaves_trailing_bytes_alone() {
    let buf = b"+OK\r\n+EXTRA\r\n".to_vec();
    let RESPToken(raw, next) = tokenize(&buf, 0).unwrap().unwrap();
    assert_eq!(next, 5);
    match raw {
        RESPRaw::SimpleString(t) => assert_eq!((t.0, t.1), (1, 3)),
        other => panic!("unexpected token {:?}", other),
    }
}

#[test]
fn tok_slices_its_range() {
    let buf = b"+OK\r\n".to_vec();
    let t = Tok::new(1, 3);
    assert_eq!(t.as_slice(&buf), &b"OK"[..]);
    assert_eq!(t.as_bytes(&buf), b"OK".to_vec());
}

#[test]
fn parse_frame_reports_malformed_buffers() {
    assert!(parse_frame(&b"hello".to_vec()).is_err());
}

#[test]
fn parse_frame_empty_buffer_is_incomplete() {
    assert!(matches!(parse_frame(&Vec::new()), Ok(None)));
}

#[test]
fn rdb_payload_framing() {
    // `$<n>\r\n` followed by exactly n bytes and no trailing CRLF; the
    // payload handed on stops one byte short of the declared size.
    let buf = b"$4\r\nabcd".to_vec();
    assert_eq!(parse_rdb_payload(&buf), Some(b"abc".to_vec()));
}

#[test]
fn rdb_payload_rejects_wrong_size() {
    assert_eq!(parse_rdb_payload(&b"$4\r\nabc".to_vec()), None);
    assert_eq!(parse_rdb_payload(&b"$4\r\nabcde".to_vec()), None);
}

#[test]
fn rdb_payload_rejects_zero_size() {
    assert_eq!(parse_rdb_payload(&b"$0\r\n".to_vec()), None);
}

#[test]
fn rdb_payload_rejects_missing_prefix() {
    assert_eq!(parse_rdb_payload(&b"4\r\nabcd".to_vec()), None);
    assert_eq!(parse_rdb_payload(&Vec::new()), None);
}

#[test]
fn rdb_frame_prefix_renders_length() {
    assert_eq!(rdb_frame_prefix(88), b"$88\r\n".to_vec());
    assert_eq!(rdb_frame_prefix(0), b"$0\r\n".to_vec());
}
