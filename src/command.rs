use vstd::prelude::*;

use crate::database::{
    deadline, key_views, live_keys, spec_expire_at, spec_get, spec_set, Database,
};
use crate::request::{Command, Request};
use crate::resp2::Frame;
use crate::response::{info_bytes, Response};
use crate::ServerMode;

verus! {

/// The error line sent for a command that is not understood.
pub open spec fn bad_command_text() -> Seq<char> {
    "BAD_CMD Invalid command received"@
}

/// Runs one command against the keyspace `db` and the configuration store
/// `config` at time `now` (milliseconds since the Unix epoch), and gives the
/// answer.
pub fn execute(request: Request, db: &mut Database, config: &mut Database, now: u64) -> (r: Response)
    requires
        old(db).wf(),
        old(config).wf(),
    ensures
        final(db).wf(),
        final(config).wf(),
        match request@ {
            Command::Ping => r.frame() == Frame::Text("PONG"@) && final(db)@ == old(db)@
                && final(config)@ == old(config)@,
            Command::Echo(d) => r.frame() == Frame::Binary(d) && final(db)@ == old(db)@
                && final(config)@ == old(config)@,
            Command::Get(k) => {
                let (v, after) = spec_get(old(db)@, k, now);
                &&& final(db)@ == after
                &&& final(config)@ == old(config)@
                &&& r.frame() == match v {
                    Some(x) => Frame::Binary(x),
                    None => Frame::Null,
                }
            },
            Command::SetValue(k, v) => r.frame() == Frame::Text("OK"@) && final(db)@ == spec_set(old(db)@, k, v)
                && final(config)@ == old(config)@,
            Command::SetExpire(k, v, ms) => r.frame() == Frame::Text("OK"@)
                && final(db)@ == spec_expire_at(spec_set(old(db)@, k, v), k, deadline(now, ms))
                && final(config)@ == old(config)@,
            Command::Keys => {
                &&& r matches Response::KeyMatches(keys)
                &&& key_views(keys@).no_duplicates()
                &&& key_views(keys@).to_set() == live_keys(old(db)@, now)
                &&& final(db)@ == old(db)@
                &&& final(config)@ == old(config)@
            },
            Command::ConfigGet(k) => {
                let (v, after) = spec_get(old(config)@, k, now);
                &&& final(config)@ == after
                &&& final(db)@ == old(db)@
                &&& r.frame() == match v {
                    Some(x) => Frame::Array(seq![Frame::Binary(k), Frame::Binary(x)]),
                    None => Frame::Null,
                }
            },
            Command::InfoReplication => r.frame() == Frame::Binary(
                info_bytes(ServerMode::Master, Seq::empty(), 0, 0, 0, 0, 0),
            ) && final(db)@ == old(db)@ && final(config)@ == old(config)@,
            Command::Unhandled => r.frame() == Frame::Error(bad_command_text()) && final(db)@
                == old(db)@ && final(config)@ == old(config)@,
        },
{
    match request {
        Request::Ping => Response::Pong,
        Request::Echo(data) => Response::Echo(data),
        Request::Get(key) => match db.get_at(key.as_slice(), now) {
            Some(data) => Response::Content(data),
            None => Response::NoContent,
        },
        Request::SetValue(key, value) => {
            db.set(key.as_slice(), value.as_slice());
            Response::Okay
        },
        Request::SetExpire(key, value, ms_delta) => {
            db.set(key.as_slice(), value.as_slice());
            db.expire_in_millis_at(key.as_slice(), ms_delta, now);
            Response::Okay
        },
        Request::Keys => Response::KeyMatches(db.keys_at(now)),
        Request::ConfigGet(key) => match config.get_at(key.as_slice(), now) {
            Some(value) => Response::ConfigGet(key, value),
            None => Response::NoContent,
        },
        Request::InfoReplication => {
            let r = Response::InfoReplication {
                role: ServerMode::Master,
                master_replid: String::new(),
                master_repl_offset: 0,
                repl_backlog_active: 0,
                repl_backlog_size: 0,
                repl_backlog_first_byte_offset: 0,
                repl_backlog_histlen: 0,
            };
            r
        },
        Request::UnhandledCommand => Response::Error("BAD_CMD Invalid command received".to_owned()),
    }
}

} // verus!
