use miniredis::commands::{config, dispatch, format_info, info, now, Outcome};
use miniredis::handler::parse_frame;
use miniredis::rdb::{decode_rdb, parse_length_encoding, parse_rdb_string};
use miniredis::repl::{
    gen_uuid, HandshakeState, RedisMasterContext, RedisReplicaContext, ServerContext,
};
use miniredis::server::{Args, RedisServer, RedisServerConfig};
use miniredis::store::Store;
use miniredis::value::RedisValue;

fn master_ctx() -> ServerContext {
    ServerContext::Master(RedisMasterContext::new())
}

/// Feeds one wire request through the parser and dispatcher and returns the
/// serialized reply.
fn run(store: &mut Store, cfg: &Option<RedisServerConfig>, ctx: &ServerContext, at: u64,
    req: &[u8]) -> Vec<u8> {
    let buf = req.to_vec();
    let (val, consumed) = parse_frame(&buf).expect("well-formed").expect("complete");
    assert_eq!(consumed, buf.len());
    match dispatch(val, store, cfg, ctx, at) {
        Outcome::Reply(v) => v.serialize(),
        Outcome::FullResync(v) => v.serialize(),
        Outcome::Close => panic!("connection closed unexpectedly"),
    }
}

#[test]
fn ping_replies_pong() {
    let mut store = Store::new();
    let reply = run(&mut store, &None, &master_ctx(), 0, b"*1\r\n$4\r\nPING\r\n");
    assert_eq!(reply, b"+PONG\r\n".to_vec());
}

#[test]
fn echo_replies_argument() {
    let mut store = Store::new();
    let reply = run(&mut store, &None, &master_ctx(), 0, b"*2\r\n$4\r\nECHO\r\n$5\r\nhello\r\n");
    assert_eq!(reply, b"$5\r\nhello\r\n".to_vec());
}

#[test]
fn set_then_get_returns_value() {
    let mut store = Store::new();
    let ctx = master_ctx();
    let r1 = run(&mut store, &None, &ctx, 0, b"*3\r\n$3\r\nSET\r\n$3\r\nfoo\r\n$3\r\nbar\r\n");
    assert_eq!(r1, b"+OK\r\n".to_vec());
    let r2 = run(&mut store, &None, &ctx, 1, b"*2\r\n$3\r\nGET\r\n$3\r\nfoo\r\n");
    assert_eq!(r2, b"$3\r\nbar\r\n".to_vec());
}

#[test]
fn second_set_overwrites() {
    let mut store = Store::new();
    let ctx = master_ctx();
    run(&mut store, &None, &ctx, 0, b"*3\r\n$3\r\nSET\r\n$1\r\nk\r\n$1\r\na\r\n");
    run(&mut store, &None, &ctx, 1, b"*3\r\n$3\r\nSET\r\n$1\r\nk\r\n$1\r\nb\r\n");
    let r = run(&mut store, &None, &ctx, 2, b"*2\r\n$3\r\nGET\r\n$1\r\nk\r\n");
    assert_eq!(r, b"$1\r\nb\r\n".to_vec());
}

#[test]
fn expiring_set_reports_null_after_deadline() {
    let mut store = Store::new();
    let ctx = master_ctx();
    let r1 = run(&mut store, &None, &ctx, 1_000,
        b"*5\r\n$3\r\nSET\r\n$1\r\nk\r\n$1\r\nv\r\n$2\r\nPX\r\n$3\r\n100\r\n");
    assert_eq!(r1, b"+OK\r\n".to_vec());
    // still there before the deadline
    let r2 = run(&mut store, &None, &ctx, 1_050, b"*2\r\n$3\r\nGET\r\n$1\r\nk\r\n");
    assert_eq!(r2, b"$1\r\nv\r\n".to_vec());
    // gone more than 100 ms later, and removed from both stores
    let r3 = run(&mut store, &None, &ctx, 1_150, b"*2\r\n$3\r\nGET\r\n$1\r\nk\r\n");
    assert_eq!(r3, b"$-1\r\n".to_vec());
    assert!(store.keys(1_150).is_empty());
    assert_eq!(store.get(&b"k".to_vec(), 0), None);
}

#[test]
fn px_option_is_case_insensitive() {
    let mut store = Store::new();
    let ctx = master_ctx();
    run(&mut store, &None, &ctx, 0,
        b"*5\r\n$3\r\nSET\r\n$1\r\nk\r\n$1\r\nv\r\n$2\r\npx\r\n$2\r\n50\r\n");
    let r = run(&mut store, &None, &ctx, 100, b"*2\r\n$3\r\nGET\r\n$1\r\nk\r\n");
    assert_eq!(r, b"$-1\r\n".to_vec());
}

#[test]
fn set_with_unknown_option_closes_connection() {
    let mut store = Store::new();
    let buf = b"*4\r\n$3\r\nSET\r\n$1\r\nk\r\n$1\r\nv\r\n$2\r\nEX\r\n".to_vec();
    let (val, _) = parse_frame(&buf).unwrap().unwrap();
    assert!(matches!(dispatch(val, &mut store, &None, &master_ctx(), 0), Outcome::Close));
}

#[test]
fn get_of_missing_key_is_null() {
    let mut store = Store::new();
    let r = run(&mut store, &None, &master_ctx(), 0, b"*2\r\n$3\r\nGET\r\n$2\r\nno\r\n");
    assert_eq!(r, b"$-1\r\n".to_vec());
}

#[test]
fn keys_lists_exactly_live_keys() {
    let mut store = Store::new();
    store.set(b"a".to_vec(), b"1".to_vec(), None);
    store.set(b"b".to_vec(), b"2".to_vec(), Some(500));
    store.set(b"c".to_vec(), b"3".to_vec(), Some(2_000));
    // at time 1000, b has expired, a and c are live
    let mut live = store.keys(1_000);
    live.sort();
    assert_eq!(live, vec![b"a".to_vec(), b"c".to_vec()]);
}

#[test]
fn keys_reply_over_the_wire() {
    let mut store = Store::new();
    let ctx = master_ctx();
    run(&mut store, &None, &ctx, 0, b"*3\r\n$3\r\nSET\r\n$1\r\nx\r\n$1\r\n1\r\n");
    let r = run(&mut store, &None, &ctx, 1, b"*2\r\n$4\r\nKEYS\r\n$1\r\n*\r\n");
    assert_eq!(r, b"*1\r\n$1\r\nx\r\n".to_vec());
}

#[test]
fn config_get_without_config_is_an_error() {
    let mut store = Store::new();
    let r = run(&mut store, &None, &master_ctx(), 0,
        b"*3\r\n$6\r\nCONFIG\r\n$3\r\nGET\r\n$3\r\ndir\r\n");
    assert_eq!(r[0], b'-');
    assert_eq!(r, b"-No config object exists\r\n".to_vec());
}

#[test]
fn config_get_answers_known_keys_and_skips_others() {
    let cfg = Some(RedisServerConfig { dir: b"/tmp".to_vec(), dbfilename: b"dump.rdb".to_vec() });
    let args = vec![
        RedisValue::BulkString(b"GET".to_vec()),
        RedisValue::BulkString(b"dir".to_vec()),
        RedisValue::BulkString(b"maxmemory".to_vec()),
        RedisValue::BulkString(b"dbfilename".to_vec()),
    ];
    let r = config(&cfg, &args).unwrap();
    let expected = RedisValue::Array(vec![
        RedisValue::BulkString(b"dir".to_vec()),
        RedisValue::BulkString(b"/tmp".to_vec()),
        RedisValue::BulkString(b"dbfilename".to_vec()),
        RedisValue::BulkString(b"dump.rdb".to_vec()),
    ]);
    assert_eq!(r, expected);
}

#[test]
fn config_unknown_subcommand_is_an_error() {
    let args = vec![RedisValue::BulkString(b"set".to_vec())];
    let r = config(&None, &args).unwrap();
    assert_eq!(r, RedisValue::SimpleError(b"Invalid sub command for 'CONFIG': 'SET'".to_vec()));
}

#[test]
fn info_reports_master_role_and_replid() {
    let mut store = Store::new();
    let ctx = master_ctx();
    let r = run(&mut store, &None, &ctx, 0, b"*2\r\n$4\r\nINFO\r\n$11\r\nreplication\r\n");
    assert_eq!(r[0], b'$');
    let text = String::from_utf8_lossy(&r).into_owned();
    assert!(text.contains("role:master"));
    let idx = text.find("master_replid:").expect("replid line");
    let id = &text[idx + "master_replid:".len()..];
    let id: String = id.chars().take_while(|c| c.is_ascii_alphanumeric()).collect();
    assert_eq!(id.len(), 40);
    assert!(text.contains("master_repl_offset:0"));
}

#[test]
fn info_reports_replica_fields() {
    let ctx = ServerContext::Replica(RedisReplicaContext::new());
    let v = info(&ctx);
    let wire = v.serialize();
    let text = String::from_utf8_lossy(&wire).into_owned();
    assert!(text.contains("role:slave"));
    assert!(text.contains("slave_repl_offset:0"));
    assert!(text.contains("master_replid2:\r\n"));
    assert!(text.contains("second_repl_offset:-1"));
}

#[test]
fn replconf_replies_ok() {
    let mut store = Store::new();
    let r = run(&mut store, &None, &master_ctx(), 0,
        b"*3\r\n$8\r\nREPLCONF\r\n$14\r\nlistening-port\r\n$4\r\n6380\r\n");
    assert_eq!(r, b"+OK\r\n".to_vec());
}

#[test]
fn psync_replies_fullresync_preamble() {
    let mut store = Store::new();
    let ctx = master_ctx();
    let buf = b"*3\r\n$5\r\nPSYNC\r\n$1\r\n?\r\n$2\r\n-1\r\n".to_vec();
    let (val, _) = parse_frame(&buf).unwrap().unwrap();
    let reply = match dispatch(val, &mut store, &None, &ctx, 0) {
        Outcome::FullResync(v) => v.serialize(),
        other => panic!("expected a full resync, got {:?}", matches!(other, Outcome::Close)),
    };
    // the preamble is a simple string whose payload already carries the `+`
    // and terminator, so the wire shows them twice
    assert!(reply.starts_with(b"++FULLRESYNC "));
    assert!(reply.ends_with(b" 0\r\n\r\n"));
}

#[test]
fn unknown_command_is_an_in_band_error() {
    let mut store = Store::new();
    let r = run(&mut store, &None, &master_ctx(), 0, b"*1\r\n$3\r\nfly\r\n");
    assert_eq!(r, b"-Invalid command: 'fly'\r\n".to_vec());
}

#[test]
fn non_bulk_request_closes_connection() {
    let mut store = Store::new();
    let buf = b"+PING\r\n".to_vec();
    let (val, _) = parse_frame(&buf).unwrap().unwrap();
    assert!(matches!(dispatch(val, &mut store, &None, &master_ctx(), 0), Outcome::Close));
}

#[test]
fn empty_array_request_closes_connection() {
    let mut store = Store::new();
    let buf = b"*0\r\n".to_vec();
    let (val, _) = parse_frame(&buf).unwrap().unwrap();
    assert!(matches!(dispatch(val, &mut store, &None, &master_ctx(), 0), Outcome::Close));
}

#[test]
fn empty_snapshot_decodes_to_empty_stores() {
    let mut bytes = b"REDIS0011".to_vec();
    bytes.extend_from_slice(&[0xFB, 0x00, 0x00, 0xFF]);
    let store = decode_rdb(&bytes, 0);
    assert!(store.keys(0).is_empty());
}

#[test]
fn snapshot_record_without_expiry_is_loaded() {
    let mut bytes = b"REDIS0011".to_vec();
    bytes.extend_from_slice(&[0xFB, 0x01, 0x00]);
    bytes.push(0x00); // string value type
    bytes.push(3);
    bytes.extend_from_slice(b"foo");
    bytes.push(3);
    bytes.extend_from_slice(b"bar");
    bytes.push(0xFF);
    let mut store = decode_rdb(&bytes, 0);
    assert_eq!(store.get(&b"foo".to_vec(), 0), Some(b"bar".to_vec()));
}

#[test]
fn snapshot_record_with_live_expiry_is_loaded() {
    let mut bytes = b"REDIS0011".to_vec();
    bytes.extend_from_slice(&[0xFB, 0x01, 0x01, 0xFC]);
    bytes.extend_from_slice(&5_000u64.to_le_bytes());
    bytes.push(0x00);
    bytes.push(1);
    bytes.push(b'k');
    bytes.push(1);
    bytes.push(b'v');
    bytes.push(0xFF);
    let mut store = decode_rdb(&bytes, 1_000);
    assert_eq!(store.get(&b"k".to_vec(), 1_000), Some(b"v".to_vec()));
    // and the deadline came along: the key dies at 5000
    assert_eq!(store.get(&b"k".to_vec(), 5_000), None);
}

#[test]
fn snapshot_record_with_past_expiry_is_discarded() {
    let mut bytes = b"REDIS0011".to_vec();
    bytes.extend_from_slice(&[0xFB, 0x01, 0x01, 0xFC]);
    bytes.extend_from_slice(&500u64.to_le_bytes());
    bytes.push(0x00);
    bytes.push(1);
    bytes.push(b'k');
    bytes.push(1);
    bytes.push(b'v');
    bytes.push(0xFF);
    let store = decode_rdb(&bytes, 1_000);
    assert!(store.keys(1_000).is_empty());
}

#[test]
fn snapshot_without_end_marker_yields_empty_stores() {
    let mut bytes = b"REDIS0011".to_vec();
    bytes.extend_from_slice(&[0xFB, 0x01, 0x00, 0x00]);
    bytes.push(3);
    bytes.extend_from_slice(b"foo");
    bytes.push(3);
    bytes.extend_from_slice(b"bar");
    // no 0xFF
    let store = decode_rdb(&bytes, 0);
    assert!(store.keys(0).is_empty());
}

#[test]
fn snapshot_without_start_marker_yields_empty_stores() {
    let store = decode_rdb(&b"REDIS0011".to_vec(), 0);
    assert!(store.keys(0).is_empty());
}

#[test]
fn snapshot_with_non_string_type_yields_empty_stores() {
    let mut bytes = b"REDIS0011".to_vec();
    bytes.extend_from_slice(&[0xFB, 0x01, 0x00, 0x04, 0xFF]);
    let store = decode_rdb(&bytes, 0);
    assert!(store.keys(0).is_empty());
}

#[test]
fn length_encoding_six_bit() {
    let buf = vec![0x2A, 0x00];
    assert_eq!(parse_length_encoding(&buf, 0), Some((42, 1)));
}

#[test]
fn length_encoding_four_byte_little_endian() {
    let buf = vec![0x80, 0x03, 0x01, 0x00, 0x00];
    assert_eq!(parse_length_encoding(&buf, 0), Some((259, 5)));
}

#[test]
fn length_encoding_unsupported_forms_fail() {
    assert_eq!(parse_length_encoding(&vec![0x40, 0x00], 0), None);
    assert_eq!(parse_length_encoding(&vec![0xC0, 0x00], 0), None);
    assert_eq!(parse_length_encoding(&Vec::new(), 0), None);
}

#[test]
fn rdb_string_parses_length_then_bytes() {
    let mut buf = vec![5u8];
    buf.extend_from_slice(b"hello");
    assert_eq!(parse_rdb_string(&buf, 0), Some((b"hello".to_vec(), 6)));
    assert_eq!(parse_rdb_string(&vec![9u8, b'x'], 0), None);
}

#[test]
fn gen_uuid_yields_40_alphanumerics() {
    let id = gen_uuid();
    assert_eq!(id.len(), 40);
    for b in id {
        assert!(b.is_ascii_alphanumeric());
    }
    // two draws almost surely differ: the id is random, not constant
    assert_ne!(gen_uuid(), gen_uuid());
}

#[test]
fn now_is_past_a_fixed_instant() {
    // any sane clock reads later than the start of 2020
    assert!(now() > 1_577_836_800_000);
}

#[test]
fn handshake_requests_and_steps() {
    let ping = miniredis::repl::handshake_request(&HandshakeState::Ping, 6380).unwrap();
    assert_eq!(ping.serialize(), b"*1\r\n$4\r\nPING\r\n".to_vec());
    let port = miniredis::repl::handshake_request(&HandshakeState::ReplconfPort, 6380).unwrap();
    assert_eq!(
        port.serialize(),
        b"*3\r\n$8\r\nREPLCONF\r\n$14\r\nlistening-port\r\n$4\r\n6380\r\n".to_vec()
    );
    let capa = miniredis::repl::handshake_request(&HandshakeState::ReplconfCapa, 6380).unwrap();
    assert_eq!(
        capa.serialize(),
        b"*3\r\n$8\r\nREPLCONF\r\n$4\r\ncapa\r\n$6\r\npsync2\r\n".to_vec()
    );
    let psync = miniredis::repl::handshake_request(&HandshakeState::Psync, 6380).unwrap();
    assert_eq!(psync.serialize(), b"*3\r\n$5\r\nPSYNC\r\n$1\r\n?\r\n$2\r\n-1\r\n".to_vec());
    assert!(miniredis::repl::handshake_request(&HandshakeState::ReceivingRdb, 6380).is_none());

    let pong = RedisValue::SimpleString(b"PONG".to_vec());
    let ok = RedisValue::SimpleString(b"OK".to_vec());
    assert_eq!(
        miniredis::repl::handshake_step(&HandshakeState::Ping, &pong),
        Some(HandshakeState::ReplconfPort)
    );
    assert_eq!(miniredis::repl::handshake_step(&HandshakeState::Ping, &ok), None);
    assert_eq!(
        miniredis::repl::handshake_step(&HandshakeState::ReplconfPort, &ok),
        Some(HandshakeState::ReplconfCapa)
    );
    assert_eq!(
        miniredis::repl::handshake_step(&HandshakeState::ReplconfCapa, &ok),
        Some(HandshakeState::Psync)
    );
    // the FULLRESYNC reply is discarded whatever it holds
    assert_eq!(
        miniredis::repl::handshake_step(&HandshakeState::Psync, &pong),
        Some(HandshakeState::ReceivingRdb)
    );
}

#[test]
fn server_init_without_config_starts_empty() {
    let args = Args { dir: None, dbfilename: None, port: None, replicaof: None };
    let server = RedisServer::init(args, None, 0, master_ctx());
    assert!(server.config.is_none());
    assert!(server.store.keys(0).is_empty());
}

#[test]
fn server_init_with_config_and_snapshot() {
    let args = Args {
        dir: Some(b"/tmp".to_vec()),
        dbfilename: Some(b"dump.rdb".to_vec()),
        port: Some(6379),
        replicaof: None,
    };
    let mut bytes = b"REDIS0011".to_vec();
    bytes.extend_from_slice(&[0xFB, 0x01, 0x00, 0x00]);
    bytes.push(1);
    bytes.push(b'k');
    bytes.push(1);
    bytes.push(b'v');
    bytes.push(0xFF);
    let mut server = RedisServer::init(args, Some(bytes), 0, master_ctx());
    assert!(server.config.is_some());
    assert_eq!(server.store.get(&b"k".to_vec(), 0), Some(b"v".to_vec()));
}

#[test]
fn format_info_joins_key_and_value() {
    assert_eq!(format_info(&b"role".to_vec(), &b"master".to_vec()), b"role:master".to_vec());
}

#[test]
fn master_context_starts_at_offset_zero() {
    let c = RedisMasterContext::new();
    assert_eq!(c.master_repl_offset, 0);
    assert_eq!(c.master_replid.len(), 40);
    let ctx = ServerContext::Master(c);
    assert!(ctx.is_master());
    assert_eq!(ctx.get_master_replid().len(), 40);
}

#[test]
fn replica_context_starts_blank() {
    let c = RedisReplicaContext::new();
    assert_eq!(c.master_repl_offset, 0);
    assert_eq!(c.slave_repl_offset, 0);
    assert!(c.master_replid2.is_none());
    assert!(c.second_repl_offset.is_none());
    let ctx = ServerContext::Replica(c);
    assert!(!ctx.is_master());
}
