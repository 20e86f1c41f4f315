use vstd::prelude::*;
use vstd::utf8::encode_utf8;

use crate::database::key_views;
use crate::rdb::RedisString;
use crate::resp2::{append_bytes, encode, Frame, Message};
use crate::text::{decimal_bytes, push_unsigned};
use crate::ServerMode;

verus! {

/// The server's answer to a command.
#[derive(Debug, PartialEq, Eq)]
pub enum Response {
    Pong,
    Echo(RedisString),
    InfoReplication {
        role: ServerMode,
        master_replid: String,
        master_repl_offset: usize,
        repl_backlog_active: usize,
        repl_backlog_size: usize,
        repl_backlog_first_byte_offset: usize,
        repl_backlog_histlen: usize,
    },
    Okay,
    NoContent,
    Content(RedisString),
    KeyMatches(Vec<RedisString>),
    ConfigGet(RedisString, RedisString),
    Error(String),
}

/// One `name:value` line of the replication report.
pub open spec fn info_line(name: Seq<char>, value: Seq<u8>) -> Seq<u8> {
    encode_utf8(name) + seq![58u8] + value + seq![10u8]
}

pub open spec fn role_name(role: ServerMode) -> Seq<char> {
    match role {
        ServerMode::Master => "master"@,
        ServerMode::Slave => "slave"@,
    }
}

/// The replication report: one line for each field, in a fixed order.
pub open spec fn info_bytes(
    role: ServerMode,
    master_replid: Seq<char>,
    master_repl_offset: usize,
    repl_backlog_active: usize,
    repl_backlog_size: usize,
    repl_backlog_first_byte_offset: usize,
    repl_backlog_histlen: usize,
) -> Seq<u8> {
    info_line("role"@, encode_utf8(role_name(role)))
        + info_line("master_replid"@, encode_utf8(master_replid))
        + info_line("master_repl_offset"@, decimal_bytes(master_repl_offset as int))
        + info_line("repl_backlog_active"@, decimal_bytes(repl_backlog_active as int))
        + info_line("repl_backlog_size"@, decimal_bytes(repl_backlog_size as int))
        + info_line("repl_backlog_first_byte_offset"@, decimal_bytes(repl_backlog_first_byte_offset as int))
        + info_line("repl_backlog_histlen"@, decimal_bytes(repl_backlog_histlen as int))
}

/// Bulk strings of the given byte strings.
pub open spec fn binaries(keys: Seq<Seq<u8>>) -> Seq<Frame> {
    keys.map_values(|k: Seq<u8>| Frame::Binary(k))
}

fn push_info_text(out: &mut Vec<u8>, name: &str, value: &str)
    ensures
        final(out)@ == old(out)@ + info_line(name@, encode_utf8(value@)),
{
    append_bytes(out, name.as_bytes());
    out.push(58);
    append_bytes(out, value.as_bytes());
    out.push(10);
    assert(final(out)@ =~= old(out)@ + info_line(name@, encode_utf8(value@)));
}

fn push_info_number(out: &mut Vec<u8>, name: &str, value: usize)
    ensures
        final(out)@ == old(out)@ + info_line(name@, decimal_bytes(value as int)),
{
    append_bytes(out, name.as_bytes());
    out.push(58);
    push_unsigned(out, value as u64);
    out.push(10);
    assert(final(out)@ =~= old(out)@ + info_line(name@, decimal_bytes(value as int)));
}

impl Response {
    /// The frame that answers the client.
    pub open spec fn frame(&self) -> Frame {
        match self {
            Response::Pong => Frame::Text("PONG"@),
            Response::Echo(d) => Frame::Binary(d@),
            Response::InfoReplication {
                role,
                master_replid,
                master_repl_offset,
                repl_backlog_active,
                repl_backlog_size,
                repl_backlog_first_byte_offset,
                repl_backlog_histlen,
            } => Frame::Binary(
                info_bytes(
                    *role,
                    master_replid@,
                    *master_repl_offset,
                    *repl_backlog_active,
                    *repl_backlog_size,
                    *repl_backlog_first_byte_offset,
                    *repl_backlog_histlen,
                ),
            ),
            Response::Okay => Frame::Text("OK"@),
            Response::NoContent => Frame::Null,
            Response::Content(d) => Frame::Binary(d@),
            Response::KeyMatches(keys) => Frame::Array(binaries(key_views(keys@))),
            Response::ConfigGet(k, v) => Frame::Array(seq![Frame::Binary(k@), Frame::Binary(v@)]),
            Response::Error(m) => Frame::Error(m@),
        }
    }

    /// The message that answers the client.
    pub fn to_message(&self) -> (m: Message)
        ensures
            m@ == self.frame(),
    {
        match self {
            Response::Pong => Message::text("PONG"),
            Response::Echo(d) => Message::bin(d.as_slice()),
            Response::InfoReplication {
                role,
                master_replid,
                master_repl_offset,
                repl_backlog_active,
                repl_backlog_size,
                repl_backlog_first_byte_offset,
                repl_backlog_histlen,
            } => {
                let mut data: Vec<u8> = Vec::new();
                let role_text = match role {
                    ServerMode::Master => "master",
                    ServerMode::Slave => "slave",
                };
                push_info_text(&mut data, "role", role_text);
                push_info_text(&mut data, "master_replid", master_replid.as_str());
                push_info_number(&mut data, "master_repl_offset", *master_repl_offset);
                push_info_number(&mut data, "repl_backlog_active", *repl_backlog_active);
                push_info_number(&mut data, "repl_backlog_size", *repl_backlog_size);
                push_info_number(&mut data, "repl_backlog_first_byte_offset", *repl_backlog_first_byte_offset);
                push_info_number(&mut data, "repl_backlog_histlen", *repl_backlog_histlen);
                proof {
                    let b = info_bytes(
                        *role,
                        master_replid@,
                        *master_repl_offset,
                        *repl_backlog_active,
                        *repl_backlog_size,
                        *repl_backlog_first_byte_offset,
                        *repl_backlog_histlen,
                    );
                    assert(data@ =~= b);
                }
                Message::Binary(data)
            },
            Response::Okay => Message::text("OK"),
            Response::NoContent => Message::Null,
            Response::Content(d) => Message::bin(d.as_slice()),
            Response::KeyMatches(keys) => {
                let mut items: Vec<Message> = Vec::new();
                let mut i: usize = 0;
                while i < keys.len()
                    invariant
                        i <= keys@.len(),
                        items@.len() == i,
                        crate::resp2::frames(items@) == binaries(key_views(keys@)).subrange(0, i as int),
                    decreases keys@.len() - i,
                {
                    let ghost before = crate::resp2::frames(items@);
                    let ghost old_items = items@;
                    items.push(Message::bin(keys[i].as_slice()));
                    assert forall|j: int| 0 <= j < i + 1 implies #[trigger] crate::resp2::frames(items@)[j]
                        == binaries(key_views(keys@))[j] by {
                        if j < i {
                            assert(items@[j] == old_items[j]);
                            assert(before[j] == binaries(key_views(keys@)).subrange(0, i as int)[j]);
                        }
                    }
                    assert(crate::resp2::frames(items@) =~= binaries(key_views(keys@)).subrange(0, i + 1));
                    i = i + 1;
                }
                assert(binaries(key_views(keys@)).subrange(0, i as int) =~= binaries(key_views(keys@)));
                Message::Array(items)
            },
            Response::ConfigGet(k, v) => {
                let items = vec![Message::bin(k.as_slice()), Message::bin(v.as_slice())];
                assert(crate::resp2::frames(items@) =~= seq![Frame::Binary(k@), Frame::Binary(v@)]);
                Message::Array(items)
            },
            Response::Error(m) => Message::error(m.as_str()),
        }
    }

    /// Appends the encoding of the answer to `out`.
    pub fn write(&self, out: &mut Vec<u8>)
        ensures
            final(out)@ == old(out)@ + encode(self.frame()),
    {
        self.to_message().write(out);
    }
}

} // verus!
