use vstd::prelude::*;
use vstd::slice::slice_to_vec;
use vstd::utf8::{decode_utf8, encode_utf8, valid_utf8};

use crate::error::{Fault, MiniRedisError};
use crate::rdb::RedisString;
use crate::resp2::{frames, spec_frame, Frame, Message};
use crate::text::{decimal_u64, parse_u64, string_from_utf8};

verus! {

/// A command of a client.
#[derive(Debug, PartialEq, Eq)]
pub enum Request {
    Ping,
    Echo(RedisString),
    Get(RedisString),
    SetValue(RedisString, RedisString),
    /// Set, then expire after the given number of milliseconds.
    SetExpire(RedisString, RedisString, u64),
    Keys,
    ConfigGet(RedisString),
    InfoReplication,
    UnhandledCommand,
}

/// The mathematical value of a [`Request`].
pub enum Command {
    Ping,
    Echo(Seq<u8>),
    Get(Seq<u8>),
    SetValue(Seq<u8>, Seq<u8>),
    SetExpire(Seq<u8>, Seq<u8>, u64),
    Keys,
    ConfigGet(Seq<u8>),
    InfoReplication,
    Unhandled,
}

impl View for Request {
    type V = Command;

    open spec fn view(&self) -> Command {
        match self {
            Request::Ping => Command::Ping,
            Request::Echo(d) => Command::Echo(d@),
            Request::Get(k) => Command::Get(k@),
            Request::SetValue(k, v) => Command::SetValue(k@, v@),
            Request::SetExpire(k, v, ms) => Command::SetExpire(k@, v@, *ms),
            Request::Keys => Command::Keys,
            Request::ConfigGet(k) => Command::ConfigGet(k@),
            Request::InfoReplication => Command::InfoReplication,
            Request::UnhandledCommand => Command::Unhandled,
        }
    }
}

pub open spec fn ascii_lower(b: u8) -> u8 {
    if 65 <= b <= 90 {
        (b + 32) as u8
    } else {
        b
    }
}

/// Equal up to ASCII case.
pub open spec fn eq_ignore_case(a: Seq<u8>, b: Seq<u8>) -> bool {
    a.len() == b.len() && forall|i: int| 0 <= i < a.len() ==> ascii_lower(#[trigger] a[i]) == ascii_lower(b[i])
}

/// `a` is the word `w`, in any ASCII case.
pub open spec fn is_word(a: Seq<u8>, w: &str) -> bool {
    eq_ignore_case(a, encode_utf8(w@))
}

fn ascii_eq_ignore_case(a: &[u8], b: &[u8]) -> (r: bool)
    ensures
        r == eq_ignore_case(a@, b@),
{
    if a.len() != b.len() {
        return false;
    }
    let mut i: usize = 0;
    while i < a.len()
        invariant
            a@.len() == b@.len(),
            i <= a@.len(),
            forall|j: int| 0 <= j < i ==> ascii_lower(#[trigger] a@[j]) == ascii_lower(b@[j]),
        decreases a@.len() - i,
    {
        let x = if 65 <= a[i] && a[i] <= 90 {
            a[i] + 32
        } else {
            a[i]
        };
        let y = if 65 <= b[i] && b[i] <= 90 {
            b[i] + 32
        } else {
            b[i]
        };
        if x != y {
            return false;
        }
        i = i + 1;
    }
    true
}

/// Every item is a bulk string.
pub open spec fn all_binary(items: Seq<Frame>) -> bool {
    forall|i: int| 0 <= i < items.len() ==> #[trigger] items[i] is Binary
}

/// The expiry argument of `SET ... PX`: its decimal value, or 0 where it is
/// not an unsigned decimal number.
pub open spec fn px_value(b: Seq<u8>) -> u64 {
    if valid_utf8(b) {
        match decimal_u64(decode_utf8(b)) {
            Some(n) => n,
            None => 0,
        }
    } else {
        0
    }
}

/// The command that a frame holds: an array of bulk strings whose first item
/// names the command in any ASCII case, with the argument count of its form.
pub open spec fn command_of(f: Frame) -> Command {
    match f {
        Frame::Array(items) => if !all_binary(items) || items.len() == 0 {
            Command::Unhandled
        } else {
            let a = |i: int| items[i]->Binary_0;
            let n = items.len();
            if n == 1 && is_word(a(0), "PING") {
                Command::Ping
            } else if n == 2 && is_word(a(0), "ECHO") {
                Command::Echo(a(1))
            } else if n == 2 && is_word(a(0), "GET") {
                Command::Get(a(1))
            } else if n == 3 && is_word(a(0), "SET") {
                Command::SetValue(a(1), a(2))
            } else if n == 5 && is_word(a(0), "SET") && is_word(a(3), "PX") {
                Command::SetExpire(a(1), a(2), px_value(a(4)))
            } else if n == 2 && is_word(a(0), "KEYS") && a(1) == encode_utf8("*"@) {
                Command::Keys
            } else if n == 3 && is_word(a(0), "CONFIG") && is_word(a(1), "GET") {
                Command::ConfigGet(a(2))
            } else if n == 2 && is_word(a(0), "INFO") && is_word(a(1), "replication") {
                Command::InfoReplication
            } else {
                Command::Unhandled
            }
        },
        _ => Command::Unhandled,
    }
}

fn px_arg(b: &[u8]) -> (r: u64)
    ensures
        r == px_value(b@),
{
    match string_from_utf8(slice_to_vec(b)) {
        Ok(t) => match parse_u64(t.as_str()) {
            Some(n) => n,
            None => 0,
        },
        Err(_) => 0,
    }
}

fn binary_at(items: &Vec<Message>, i: usize) -> (r: &[u8])
    requires
        i < items@.len(),
        items@[i as int] is Binary,
    ensures
        r@ == items@[i as int]@->Binary_0,
{
    match &items[i] {
        Message::Binary(b) => b.as_slice(),
        _ => {
            assert(false);
            &[]
        },
    }
}

impl Request {
    /// The command that a decoded message holds.
    pub fn from_message(msg: &Message) -> (r: Request)
        ensures
            r@ == command_of(msg@),
    {
        let items = match msg {
            Message::Array(items) => items,
            _ => return Request::UnhandledCommand,
        };
        let n = items.len();
        let mut i: usize = 0;
        while i < n
            invariant
                n == items@.len(),
                i <= n,
                *msg == Message::Array(*items),
                forall|j: int| 0 <= j < i ==> (#[trigger] items@[j])@ is Binary,
            decreases n - i,
        {
            match &items[i] {
                Message::Binary(_) => {},
                _ => {
                    assert(frames(items@)[i as int] == items@[i as int]@);
                    return Request::UnhandledCommand;
                },
            }
            i = i + 1;
        }
        if n == 0 {
            return Request::UnhandledCommand;
        }
        let a0 = binary_at(items, 0);
        if n == 1 && ascii_eq_ignore_case(a0, "PING".as_bytes()) {
            Request::Ping
        } else if n == 2 && ascii_eq_ignore_case(a0, "ECHO".as_bytes()) {
            Request::Echo(RedisString::new(binary_at(items, 1)))
        } else if n == 2 && ascii_eq_ignore_case(a0, "GET".as_bytes()) {
            Request::Get(RedisString::new(binary_at(items, 1)))
        } else if n == 3 && ascii_eq_ignore_case(a0, "SET".as_bytes()) {
            Request::SetValue(RedisString::new(binary_at(items, 1)), RedisString::new(binary_at(items, 2)))
        } else if n == 5 && ascii_eq_ignore_case(a0, "SET".as_bytes()) && ascii_eq_ignore_case(
            binary_at(items, 3),
            "PX".as_bytes(),
        ) {
            Request::SetExpire(
                RedisString::new(binary_at(items, 1)),
                RedisString::new(binary_at(items, 2)),
                px_arg(binary_at(items, 4)),
            )
        } else if n == 2 && ascii_eq_ignore_case(a0, "KEYS".as_bytes()) && crate::keymap::bytes_eq(
            binary_at(items, 1),
            "*".as_bytes(),
        ) {
            Request::Keys
        } else if n == 3 && ascii_eq_ignore_case(a0, "CONFIG".as_bytes()) && ascii_eq_ignore_case(
            binary_at(items, 1),
            "GET".as_bytes(),
        ) {
            Request::ConfigGet(RedisString::new(binary_at(items, 2)))
        } else if n == 2 && ascii_eq_ignore_case(a0, "INFO".as_bytes()) && ascii_eq_ignore_case(
            binary_at(items, 1),
            "replication".as_bytes(),
        ) {
            Request::InfoReplication
        } else {
            Request::UnhandledCommand
        }
    }

    /// Decodes the message at the start of `input` and reads the command in
    /// it; returns it with the number of bytes the message takes.
    pub fn read(input: &[u8]) -> (r: Result<(Request, usize), MiniRedisError>)
        ensures
            match r {
                Ok((req, n)) => spec_frame(input@, 0) matches Ok((f, end)) && end == n
                    && req@ == command_of(f),
                Err(e) => spec_frame(input@, 0) == Err::<(Frame, int), _>(e@),
            },
    {
        let (msg, n) = Message::read(input)?;
        Ok((Request::from_message(&msg), n))
    }
}

} // verus!
