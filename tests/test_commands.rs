use redis_starter_rust::command::execute;
use redis_starter_rust::database::Database;
use redis_starter_rust::error::MiniRedisError;
use redis_starter_rust::rdb::{Rdb, RedisString};
use redis_starter_rust::request::Request;
use redis_starter_rust::resp2::Message;
use redis_starter_rust::response::Response;
use redis_starter_rust::ServerMode;

fn config() -> Database {
    let mut config = Database::new();
    config.set(b"dir", b"/tmp");
    config.set(b"dbfilename", b"dump.rdb");
    config
}

/// One round of a session: decode a command, run it, encode the answer.
fn round(input: &[u8], db: &mut Database, config: &mut Database, now: u64) -> Vec<u8> {
    let (request, used) = Request::read(input).unwrap();
    assert_eq!(used, input.len());
    let response = execute(request, db, config, now);
    let mut out: Vec<u8> = Vec::new();
    response.write(&mut out);
    out
}

fn request_of(input: &[u8]) -> Request {
    Request::read(input).unwrap().0
}

#[test]
fn ping() {
    let mut db = Database::new();
    let mut cfg = config();
    assert_eq!(round(b"*1\r\n$4\r\nPING\r\n", &mut db, &mut cfg, 0), b"+PONG\r\n".to_vec());
}

#[test]
fn echo() {
    let mut db = Database::new();
    let mut cfg = config();
    assert_eq!(
        round(b"*2\r\n$4\r\nECHO\r\n$5\r\nhello\r\n", &mut db, &mut cfg, 0),
        b"$5\r\nhello\r\n".to_vec()
    );
}

#[test]
fn set_then_get() {
    let mut db = Database::new();
    let mut cfg = config();
    assert_eq!(
        round(b"*3\r\n$3\r\nSET\r\n$3\r\nfoo\r\n$3\r\nbar\r\n", &mut db, &mut cfg, 0),
        b"+OK\r\n".to_vec()
    );
    assert_eq!(
        round(b"*2\r\n$3\r\nGET\r\n$3\r\nfoo\r\n", &mut db, &mut cfg, 0),
        b"$3\r\nbar\r\n".to_vec()
    );
    assert_eq!(
        round(b"*2\r\n$3\r\nGET\r\n$3\r\nno_\r\n", &mut db, &mut cfg, 0),
        b"$-1\r\n".to_vec()
    );
}

#[test]
fn set_with_px_then_wait() {
    let mut db = Database::new();
    let mut cfg = config();
    let start = 1_000_000;
    assert_eq!(
        round(
            b"*5\r\n$3\r\nSET\r\n$3\r\nfoo\r\n$3\r\nbar\r\n$2\r\nPX\r\n$3\r\n100\r\n",
            &mut db,
            &mut cfg,
            start
        ),
        b"+OK\r\n".to_vec()
    );
    assert_eq!(
        round(b"*2\r\n$3\r\nGET\r\n$3\r\nfoo\r\n", &mut db, &mut cfg, start),
        b"$3\r\nbar\r\n".to_vec()
    );
    assert_eq!(
        round(b"*2\r\n$3\r\nGET\r\n$3\r\nfoo\r\n", &mut db, &mut cfg, start + 250),
        b"$-1\r\n".to_vec()
    );
}

#[test]
fn config_get() {
    let mut db = Database::new();
    let mut cfg = config();
    assert_eq!(
        round(b"*3\r\n$6\r\nCONFIG\r\n$3\r\nGET\r\n$3\r\ndir\r\n", &mut db, &mut cfg, 0),
        b"*2\r\n$3\r\ndir\r\n$4\r\n/tmp\r\n".to_vec()
    );
    assert_eq!(
        round(b"*3\r\n$6\r\nconfig\r\n$3\r\nget\r\n$4\r\nport\r\n", &mut db, &mut cfg, 0),
        b"$-1\r\n".to_vec()
    );
}

#[test]
fn keys_star() {
    let mut db = Database::new();
    let mut cfg = config();
    db.set(b"foo", b"1");
    assert_eq!(
        round(b"*2\r\n$4\r\nKEYS\r\n$1\r\n*\r\n", &mut db, &mut cfg, 0),
        b"*1\r\n$3\r\nfoo\r\n".to_vec()
    );
}

#[test]
fn unknown_command_gets_bad_cmd() {
    let mut db = Database::new();
    let mut cfg = config();
    assert_eq!(
        round(b"*1\r\n$4\r\nQUIT\r\n", &mut db, &mut cfg, 0),
        b"-BAD_CMD Invalid command received\r\n".to_vec()
    );
    assert_eq!(
        round(b"+PING\r\n", &mut db, &mut cfg, 0),
        b"-BAD_CMD Invalid command received\r\n".to_vec()
    );
}

#[test]
fn info_replication() {
    let mut db = Database::new();
    let mut cfg = config();
    let expected = "role:master\nmaster_replid:\nmaster_repl_offset:0\nrepl_backlog_active:0\n\
                    repl_backlog_size:0\nrepl_backlog_first_byte_offset:0\nrepl_backlog_histlen:0\n";
    let mut wire = format!("${}\r\n", expected.len()).into_bytes();
    wire.extend_from_slice(expected.as_bytes());
    wire.extend_from_slice(b"\r\n");
    assert_eq!(
        round(b"*2\r\n$4\r\nINFO\r\n$11\r\nreplication\r\n", &mut db, &mut cfg, 0),
        wire
    );
}

#[test]
fn info_report_fields() {
    let response = Response::InfoReplication {
        role: ServerMode::Slave,
        master_replid: "abc".to_string(),
        master_repl_offset: 7,
        repl_backlog_active: 1,
        repl_backlog_size: 1048576,
        repl_backlog_first_byte_offset: 2,
        repl_backlog_histlen: 30,
    };
    let expected = "role:slave\nmaster_replid:abc\nmaster_repl_offset:7\nrepl_backlog_active:1\n\
                    repl_backlog_size:1048576\nrepl_backlog_first_byte_offset:2\nrepl_backlog_histlen:30\n";
    assert_eq!(response.to_message(), Message::bin(expected.as_bytes()));
}

#[test]
fn malformed_frame() {
    assert_eq!(
        Request::read(b"!e\r\n").unwrap_err(),
        MiniRedisError::InvalidMessageType('!')
    );
}

#[test]
fn commands_ignore_case() {
    assert_eq!(request_of(b"*1\r\n$4\r\npInG\r\n"), Request::Ping);
    assert_eq!(
        request_of(b"*2\r\n$3\r\nget\r\n$1\r\nk\r\n"),
        Request::Get(RedisString::new(b"k"))
    );
    assert_eq!(
        request_of(b"*5\r\n$3\r\nset\r\n$1\r\nk\r\n$1\r\nv\r\n$2\r\npx\r\n$2\r\n42\r\n"),
        Request::SetExpire(RedisString::new(b"k"), RedisString::new(b"v"), 42)
    );
}

#[test]
fn command_forms() {
    assert_eq!(
        request_of(b"*3\r\n$3\r\nSET\r\n$1\r\nk\r\n$1\r\nv\r\n"),
        Request::SetValue(RedisString::new(b"k"), RedisString::new(b"v"))
    );
    assert_eq!(
        request_of(b"*2\r\n$4\r\nECHO\r\n$2\r\nhi\r\n"),
        Request::Echo(RedisString::new(b"hi"))
    );
    assert_eq!(request_of(b"*2\r\n$4\r\nKEYS\r\n$1\r\n*\r\n"), Request::Keys);
    assert_eq!(
        request_of(b"*3\r\n$6\r\nCONFIG\r\n$3\r\nGET\r\n$3\r\ndir\r\n"),
        Request::ConfigGet(RedisString::new(b"dir"))
    );
    assert_eq!(request_of(b"*2\r\n$4\r\nINFO\r\n$11\r\nreplication\r\n"), Request::InfoReplication);
}

#[test]
fn unmatched_forms() {
    assert_eq!(request_of(b"*2\r\n$4\r\nKEYS\r\n$2\r\nf*\r\n"), Request::UnhandledCommand);
    assert_eq!(request_of(b"*2\r\n$4\r\nPING\r\n$1\r\nx\r\n"), Request::UnhandledCommand);
    assert_eq!(request_of(b"*2\r\n$3\r\nGET\r\n:1\r\n"), Request::UnhandledCommand);
    assert_eq!(request_of(b"*0\r\n"), Request::UnhandledCommand);
    assert_eq!(request_of(b"$-1\r\n"), Request::UnhandledCommand);
    assert_eq!(
        request_of(b"*4\r\n$3\r\nSET\r\n$1\r\nk\r\n$1\r\nv\r\n$2\r\nPX\r\n"),
        Request::UnhandledCommand
    );
}

#[test]
fn px_that_is_not_a_number_is_zero() {
    assert_eq!(
        request_of(b"*5\r\n$3\r\nSET\r\n$1\r\nk\r\n$1\r\nv\r\n$2\r\nPX\r\n$3\r\nabc\r\n"),
        Request::SetExpire(RedisString::new(b"k"), RedisString::new(b"v"), 0)
    );
    assert_eq!(
        request_of(b"*5\r\n$3\r\nSET\r\n$1\r\nk\r\n$1\r\nv\r\n$2\r\nPX\r\n$2\r\n\xff1\r\n"),
        Request::SetExpire(RedisString::new(b"k"), RedisString::new(b"v"), 0)
    );
}

#[test]
fn rdb_cold_load() {
    let mut image = b"REDIS0011".to_vec();
    image.extend_from_slice(b"\xFA\x09redis-ver\x057.2.3");
    image.extend_from_slice(b"\xFA\x0Aredis-bits\xC0\x40");
    image.extend_from_slice(&[0xFE, 0x00, 0xFB, 0x01, 0x01, 0xFC]);
    image.extend_from_slice(&1703081197600u64.to_le_bytes());
    image.extend_from_slice(b"\x00\x03foo\x03bar\xFF");
    let rdb = Rdb::read(&image).unwrap();
    assert_eq!(rdb.version, 11);
    assert_eq!(rdb.aux_redis_ver, Some("7.2.3".to_string()));
    assert_eq!(rdb.aux_redis_bits, Some("64".to_string()));
    assert_eq!(rdb.aux_ctime, None);
    assert_eq!(rdb.aux_used_men, None);
    assert_eq!(rdb.values.len(), 1);
    assert_eq!(rdb.values.get(b"foo"), Some(&RedisString::new(b"bar")));
    assert_eq!(rdb.expiry.len(), 1);
    assert_eq!(rdb.expiry.get(b"foo"), Some(&1703081197600));

    // loading it into a keyspace
    let mut db = Database::new();
    let mut cfg = config();
    for i in 0..rdb.values.len() {
        let key = rdb.values.key_at(i);
        db.set(key.as_slice(), rdb.values.get(key.as_slice()).unwrap().as_slice());
    }
    db.expire_at_millis(b"foo", *rdb.expiry.get(b"foo").unwrap());
    assert_eq!(
        round(b"*2\r\n$3\r\nGET\r\n$3\r\nfoo\r\n", &mut db, &mut cfg, 1703081197000),
        b"$3\r\nbar\r\n".to_vec()
    );
    assert_eq!(
        round(b"*2\r\n$3\r\nGET\r\n$3\r\nfoo\r\n", &mut db, &mut cfg, 1703081197601),
        b"$-1\r\n".to_vec()
    );
}
