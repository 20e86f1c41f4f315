use vstd::prelude::*;
use vstd::slice::slice_to_vec;
use vstd::utf8::{decode_utf8, valid_utf8};

use crate::error::{early_eof_error, early_eof_fault, eof_error, eof_fault, Fault, MiniRedisError};
use vstd::utf8::{encode_utf8, encode_utf8_decode_utf8, encode_utf8_valid_utf8};

use crate::text::{
    ascii_chars, decimal_bytes, lemma_ascii_utf8, lemma_decimal_round_trip, decimal_i64, int_error_text, parse_i64, push_signed, push_unsigned, string_from_utf8,
    utf8_error_text,
};

verus! {

/// A RESP2 message.
#[derive(Debug, PartialEq, Eq)]
pub enum Message {
    Text(String),
    Error(String),
    Integer(i64),
    Binary(Vec<u8>),
    Null,
    Array(Vec<Message>),
}

/// The mathematical value of a [`Message`].
pub enum Frame {
    Text(Seq<char>),
    Error(Seq<char>),
    Integer(i64),
    Binary(Seq<u8>),
    Null,
    Array(Seq<Frame>),
}

impl View for Message {
    type V = Frame;

    open spec fn view(&self) -> Frame
        decreases self,
    {
        match self {
            Message::Text(t) => Frame::Text(t@),
            Message::Error(t) => Frame::Error(t@),
            Message::Integer(n) => Frame::Integer(*n),
            Message::Binary(b) => Frame::Binary(b@),
            Message::Null => Frame::Null,
            Message::Array(items) => Frame::Array(frames(items@)),
        }
    }
}

/// The first `\r\n` of `s` at or after `i`.
pub open spec fn find_crlf(s: Seq<u8>, i: int) -> Option<int>
    decreases s.len() - i,
{
    if i < 0 || i + 1 >= s.len() {
        None
    } else if s[i] == 13 && s[i + 1] == 10 {
        Some(i)
    } else {
        find_crlf(s, i + 1)
    }
}

pub proof fn lemma_find_crlf(s: Seq<u8>, i: int)
    ensures
        match find_crlf(s, i) {
            Some(e) => i <= e && e + 2 <= s.len() && s[e] == 13 && s[e + 1] == 10,
            None => true,
        },
    decreases s.len() - i,
{
    if !(i < 0 || i + 1 >= s.len()) && !(s[i] == 13 && s[i + 1] == 10) {
        lemma_find_crlf(s, i + 1);
    }
}

/// The text of the line that starts at `p`, up to the first `\r\n`, and the
/// position after that `\r\n`.
pub open spec fn spec_line(s: Seq<u8>, p: int) -> Result<(Seq<char>, int), Fault> {
    match find_crlf(s, p) {
        None => Err(eof_fault()),
        Some(e) => {
            let b = s.subrange(p, e);
            if valid_utf8(b) {
                Ok((decode_utf8(b), e + 2))
            } else {
                Err(Fault::InvalidText(utf8_error_text(b)))
            }
        },
    }
}

/// The signed decimal number on the line that starts at `p`.
pub open spec fn spec_number(s: Seq<u8>, p: int) -> Result<(i64, int), Fault> {
    match spec_line(s, p) {
        Err(f) => Err(f),
        Ok((t, q)) => match decimal_i64(t) {
            Some(n) => Ok((n, q)),
            None => Err(Fault::InvalidNumber(int_error_text(t))),
        },
    }
}

pub proof fn lemma_number_bounds(s: Seq<u8>, p: int)
    requires
        0 <= p,
    ensures
        spec_number(s, p) matches Ok((_, q)) ==> p + 2 <= q <= s.len(),
{
    lemma_find_crlf(s, p);
}

/// Puts `xs` in front of the frames of a successful result.
pub open spec fn prepend(xs: Seq<Frame>, r: Result<(Seq<Frame>, int), Fault>) -> Result<
    (Seq<Frame>, int),
    Fault,
> {
    match r {
        Ok((rest, e)) => Ok((xs + rest, e)),
        Err(f) => Err(f),
    }
}

/// The frame that starts at `p`, and the position after it.
pub open spec fn spec_frame(s: Seq<u8>, p: int) -> Result<(Frame, int), Fault>
    decreases s.len() - p, 0int,
{
    if p < 0 || p >= s.len() {
        Err(eof_fault())
    } else {
        let tag = s[p];
        if tag == 43 {
            match spec_line(s, p + 1) {
                Err(f) => Err(f),
                Ok((t, q)) => Ok((Frame::Text(t), q)),
            }
        } else if tag == 45 {
            match spec_line(s, p + 1) {
                Err(f) => Err(f),
                Ok((t, q)) => Ok((Frame::Error(t), q)),
            }
        } else if tag == 58 {
            match spec_number(s, p + 1) {
                Err(f) => Err(f),
                Ok((n, q)) => Ok((Frame::Integer(n), q)),
            }
        } else if tag == 36 {
            match spec_number(s, p + 1) {
                Err(f) => Err(f),
                Ok((n, q)) => if n < 0 {
                    Ok((Frame::Null, q))
                } else if q + n > s.len() {
                    Err(early_eof_fault())
                } else if q + n >= s.len() {
                    Err(eof_fault())
                } else if s[q + n] != 13 {
                    Err(Fault::InvalidMessageEnd)
                } else if q + n + 1 >= s.len() {
                    Err(eof_fault())
                } else if s[q + n + 1] != 10 {
                    Err(Fault::InvalidMessageEnd)
                } else {
                    Ok((Frame::Binary(s.subrange(q, q + n)), q + n + 2))
                },
            }
        } else if tag == 42 {
            match spec_number(s, p + 1) {
                Err(f) => Err(f),
                Ok((n, q)) => if n < 0 {
                    Ok((Frame::Null, q))
                } else {
                    proof {
                        lemma_number_bounds(s, p + 1);
                    }
                    match spec_items(s, q, n as nat) {
                        Err(f) => Err(f),
                        Ok((items, r)) => Ok((Frame::Array(items), r)),
                    }
                },
            }
        } else {
            Err(Fault::InvalidMessageType(tag as char))
        }
    }
}

/// `k` frames one after the other from `p`, and the position after them.
/// Every frame takes at least one byte, so the last branch is never taken;
/// it makes the recursion visibly finite.
pub open spec fn spec_items(s: Seq<u8>, p: int, k: nat) -> Result<(Seq<Frame>, int), Fault>
    decreases s.len() - p, 1int,
{
    if k == 0 {
        Ok((Seq::empty(), p))
    } else {
        match spec_frame(s, p) {
            Err(f) => Err(f),
            Ok((f, q)) => if p < q <= s.len() {
                prepend(seq![f], spec_items(s, q, (k - 1) as nat))
            } else {
                Err(eof_fault())
            },
        }
    }
}

fn find_crlf_from(input: &[u8], from: usize) -> (r: Option<usize>)
    ensures
        match r {
            Some(e) => find_crlf(input@, from as int) == Some(e as int),
            None => find_crlf(input@, from as int) is None,
        },
{
    let mut i = from;
    while i < input.len() && input.len() - i >= 2
        invariant
            from <= i,
            find_crlf(input@, from as int) == find_crlf(input@, i as int),
        decreases input@.len() - i,
    {
        if input[i] == 13 && input[i + 1] == 10 {
            return Some(i);
        }
        i = i + 1;
    }
    None
}

fn read_line(input: &[u8], pos: usize) -> (r: Result<(String, usize), MiniRedisError>)
    ensures
        match r {
            Ok((t, q)) => spec_line(input@, pos as int) == Ok::<_, Fault>((t@, q as int)),
            Err(e) => spec_line(input@, pos as int) == Err::<(Seq<char>, int), _>(e@),
        },
{
    match find_crlf_from(input, pos) {
        None => Err(eof_error()),
        Some(e) => {
            proof {
                lemma_find_crlf(input@, pos as int);
                assert(input@.len() == input.len());
            }
            match string_from_utf8(slice_to_vec(&input[pos..e])) {
                Ok(t) => Ok((t, e + 2)),
                Err(m) => Err(MiniRedisError::InvalidText(m)),
            }
        },
    }
}

fn read_number(input: &[u8], pos: usize) -> (r: Result<(i64, usize), MiniRedisError>)
    ensures
        match r {
            Ok((n, q)) => spec_number(input@, pos as int) == Ok::<_, Fault>((n, q as int)),
            Err(e) => spec_number(input@, pos as int) == Err::<(i64, int), _>(e@),
        },
{
    let (t, q) = read_line(input, pos)?;
    match parse_i64(t.as_str()) {
        Ok(n) => Ok((n, q)),
        Err(m) => Err(MiniRedisError::InvalidNumber(m)),
    }
}

/// The frames of a sequence of messages.
pub open spec fn frames(items: Seq<Message>) -> Seq<Frame>
    decreases items,
{
    Seq::new(items.len(), |i: int| if 0 <= i < items.len() { items[i]@ } else { Frame::Null })
}

fn decode_at(input: &[u8], pos: usize) -> (r: Result<(Message, usize), MiniRedisError>)
    ensures
        match r {
            Ok((m, q)) => spec_frame(input@, pos as int) == Ok::<_, Fault>((m@, q as int)) && pos < q <= input@.len(),
            Err(e) => spec_frame(input@, pos as int) == Err::<(Frame, int), _>(e@),
        },
    decreases input@.len() - pos,
{
    if pos >= input.len() {
        return Err(eof_error());
    }
    let tag = input[pos];
    if tag == 43 || tag == 45 {
        let (t, q) = read_line(input, pos + 1)?;
        proof {
            lemma_find_crlf(input@, pos + 1);
        }
        if tag == 43 {
            Ok((Message::Text(t), q))
        } else {
            Ok((Message::Error(t), q))
        }
    } else if tag == 58 {
        let (n, q) = read_number(input, pos + 1)?;
        proof {
            lemma_number_bounds(input@, pos + 1);
        }
        Ok((Message::Integer(n), q))
    } else if tag == 36 {
        let (n, q) = read_number(input, pos + 1)?;
        proof {
            lemma_number_bounds(input@, pos + 1);
        }
        if n < 0 {
            return Ok((Message::Null, q));
        }
        if n as u64 > (input.len() - q) as u64 {
            return Err(early_eof_error());
        }
        let end = q + n as usize;
        if end >= input.len() {
            return Err(eof_error());
        }
        if input[end] != 13 {
            return Err(MiniRedisError::InvalidMessageEnd);
        }
        if end + 1 >= input.len() {
            return Err(eof_error());
        }
        if input[end + 1] != 10 {
            return Err(MiniRedisError::InvalidMessageEnd);
        }
        Ok((Message::Binary(slice_to_vec(&input[q..end])), end + 2))
    } else if tag == 42 {
        let (n, q) = read_number(input, pos + 1)?;
        proof {
            lemma_number_bounds(input@, pos + 1);
        }
        if n < 0 {
            return Ok((Message::Null, q));
        }
        let mut items: Vec<Message> = Vec::new();
        let mut cur = q;
        let mut i: i64 = 0;
        while i < n
            invariant
                0 <= i <= n,
                pos < q <= cur <= input@.len(),
                input@[pos as int] == 42,
                spec_number(input@, pos + 1) == Ok::<_, Fault>((n, q as int)),
                spec_items(input@, q as int, n as nat) == prepend(
                    frames(items@),
                    spec_items(input@, cur as int, (n - i) as nat),
                ),
            decreases n - i,
        {
            let (m, next) = match decode_at(input, cur) {
                Ok(x) => x,
                Err(e) => {
                    assert(spec_items(input@, cur as int, (n - i) as nat) == Err::<(Seq<Frame>, int), Fault>(e@));
                    return Err(e);
                },
            };
            let ghost before = frames(items@);
            items.push(m);
            assert(frames(items@) =~= before + seq![m@]);
            proof {
                let tail = spec_items(input@, next as int, (n - i - 1) as nat);
                match tail {
                    Ok((rest, _)) => {
                        assert(before + (seq![m@] + rest) =~= (before + seq![m@]) + rest);
                    },
                    Err(_) => {},
                }
            }
            cur = next;
            i = i + 1;
        }
        assert(frames(items@) + Seq::<Frame>::empty() =~= frames(items@));
        let ghost fs = frames(items@);
        let r = Message::Array(items);
        Ok((r, cur))
    } else {
        Err(MiniRedisError::InvalidMessageType(tag as char))
    }
}

/// The line terminator.
pub open spec fn crlf() -> Seq<u8> {
    seq![13u8, 10u8]
}

/// The bytes that encode a frame. A null is always written as a null bulk string.
pub open spec fn encode(f: Frame) -> Seq<u8>
    decreases f,
{
    match f {
        Frame::Text(t) => seq![43u8] + encode_utf8(t) + crlf(),
        Frame::Error(t) => seq![45u8] + encode_utf8(t) + crlf(),
        Frame::Integer(n) => seq![58u8] + decimal_bytes(n as int) + crlf(),
        Frame::Binary(b) => seq![36u8] + decimal_bytes(b.len() as int) + crlf() + b + crlf(),
        Frame::Null => seq![36u8, 45u8, 49u8] + crlf(),
        Frame::Array(items) => seq![42u8] + decimal_bytes(items.len() as int) + crlf() + encode_all(items),
    }
}

/// The encodings of `items`, one after the other.
pub open spec fn encode_all(items: Seq<Frame>) -> Seq<u8>
    decreases items,
{
    if items.len() == 0 {
        Seq::empty()
    } else {
        encode(items[0]) + encode_all(items.subrange(1, items.len() as int))
    }
}

pub(crate) fn append_bytes(out: &mut Vec<u8>, bytes: &[u8])
    ensures
        final(out)@ == old(out)@ + bytes@,
{
    let mut i: usize = 0;
    while i < bytes.len()
        invariant
            i <= bytes@.len(),
            out@ == old(out)@ + bytes@.subrange(0, i as int),
        decreases bytes@.len() - i,
    {
        out.push(bytes[i]);
        i = i + 1;
        assert(out@ =~= old(out)@ + bytes@.subrange(0, i as int));
    }
    assert(bytes@.subrange(0, i as int) =~= bytes@);
}

fn append_crlf(out: &mut Vec<u8>)
    ensures
        final(out)@ == old(out)@ + crlf(),
{
    out.push(13);
    out.push(10);
    assert(out@ =~= old(out)@ + crlf());
}

/// The UTF-8 bytes of `t` hold no `\r` and no `\n`.
pub open spec fn line_safe(t: Seq<char>) -> bool {
    forall|i: int|
        0 <= i < encode_utf8(t).len() ==> #[trigger] encode_utf8(t)[i] != 13u8 && encode_utf8(t)[i] != 10u8
}

/// The frames that the wire format can carry: text and error lines without
/// line breaks, and sizes that fit the signed decimal headers.
pub open spec fn well_formed(f: Frame) -> bool
    decreases f,
{
    match f {
        Frame::Text(t) => line_safe(t),
        Frame::Error(t) => line_safe(t),
        Frame::Binary(b) => b.len() <= i64::MAX,
        Frame::Array(items) => items.len() <= i64::MAX && forall|i: int|
            0 <= i < items.len() ==> well_formed(#[trigger] items[i]),
        _ => true,
    }
}

/// Where `s` holds `e` at `p`, it holds each part of `e` at the matching place.
proof fn lemma_part(s: Seq<u8>, p: int, e: Seq<u8>, a: int, b: int)
    requires
        0 <= p,
        p + e.len() <= s.len(),
        s.subrange(p, p + e.len()) == e,
        0 <= a <= b <= e.len(),
    ensures
        s.subrange(p + a, p + b) == e.subrange(a, b),
        forall|j: int| a <= j < b ==> s[p + j] == #[trigger] e[j],
{
    assert forall|j: int| a <= j < b implies s[p + j] == #[trigger] e[j] by {
        assert(s.subrange(p, p + e.len())[j] == s[p + j]);
    }
    assert(s.subrange(p + a, p + b) =~= e.subrange(a, b));
}

proof fn lemma_find_crlf_at(s: Seq<u8>, i: int, e: int)
    requires
        0 <= i <= e,
        e + 1 < s.len(),
        s[e] == 13,
        s[e + 1] == 10,
        forall|j: int| i <= j < e ==> s[j] != 13,
    ensures
        find_crlf(s, i) == Some(e),
    decreases e - i,
{
    if i < e {
        lemma_find_crlf_at(s, i + 1, e);
    }
}

/// A line of bytes without `\r`, then `\r\n`, at `p`.
proof fn lemma_line_at(s: Seq<u8>, p: int, line: Seq<u8>)
    requires
        0 <= p,
        p + line.len() + 2 <= s.len(),
        s.subrange(p, p + line.len() + 2) == line + crlf(),
        forall|j: int| 0 <= j < line.len() ==> #[trigger] line[j] != 13,
    ensures
        find_crlf(s, p) == Some(p + line.len()),
        s.subrange(p, p + line.len()) == line,
{
    let e = line + crlf();
    lemma_part(s, p, e, 0, e.len() as int);
    lemma_part(s, p, e, 0, line.len() as int);
    assert(e.subrange(0, line.len() as int) =~= line);
    assert forall|j: int| p <= j < p + line.len() implies s[j] != 13 by {
        assert(s[p + (j - p)] == e[j - p]);
    }
    assert(s[p + line.len()] == e[line.len() as int]);
    assert(s[p + line.len() + 1] == e[line.len() as int + 1]);
    lemma_find_crlf_at(s, p, p + line.len());
}

/// The decimal rendering of `n` on a line at `p` reads back as `n`.
proof fn lemma_number_at(s: Seq<u8>, p: int, n: int)
    requires
        i64::MIN <= n <= i64::MAX,
        0 <= p,
        p + decimal_bytes(n).len() + 2 <= s.len(),
        s.subrange(p, p + decimal_bytes(n).len() + 2) == decimal_bytes(n) + crlf(),
    ensures
        spec_number(s, p) == Ok::<_, Fault>((n as i64, p + decimal_bytes(n).len() + 2)),
{
    let d = decimal_bytes(n);
    lemma_decimal_round_trip(n);
    lemma_line_at(s, p, d);
    lemma_ascii_utf8(d);
}

/// A frame encoded at `p` decodes to itself and ends where its encoding ends.
pub proof fn lemma_decode_encoded(f: Frame, s: Seq<u8>, p: int)
    requires
        well_formed(f),
        0 <= p,
        p + encode(f).len() <= s.len(),
        s.subrange(p, p + encode(f).len()) == encode(f),
    ensures
        spec_frame(s, p) == Ok::<_, Fault>((f, p + encode(f).len())),
    decreases f,
{
    let e = encode(f);
    lemma_part(s, p, e, 0, e.len() as int);
    assert(s[p + 0] == e[0]);
    match f {
        Frame::Text(t) => {
            let line = encode_utf8(t);
            lemma_part(s, p, e, 1, e.len() as int);
            assert(e.subrange(1, e.len() as int) =~= line + crlf());
            lemma_line_at(s, p + 1, line);
            encode_utf8_valid_utf8(t);
            encode_utf8_decode_utf8(t);
        },
        Frame::Error(t) => {
            let line = encode_utf8(t);
            lemma_part(s, p, e, 1, e.len() as int);
            assert(e.subrange(1, e.len() as int) =~= line + crlf());
            lemma_line_at(s, p + 1, line);
            encode_utf8_valid_utf8(t);
            encode_utf8_decode_utf8(t);
        },
        Frame::Integer(n) => {
            let d = decimal_bytes(n as int);
            lemma_part(s, p, e, 1, e.len() as int);
            assert(e.subrange(1, e.len() as int) =~= d + crlf());
            lemma_number_at(s, p + 1, n as int);
        },
        Frame::Binary(b) => {
            let d = decimal_bytes(b.len() as int);
            let h: int = 1 + d.len() as int + 2;
            lemma_part(s, p, e, 1, h);
            assert(e.subrange(1, h) =~= d + crlf());
            lemma_number_at(s, p + 1, b.len() as int);
            lemma_part(s, p, e, h, h + b.len());
            assert(e.subrange(h, h + b.len()) =~= b);
            assert(e[h + b.len()] == 13);
            assert(e[h + b.len() + 1] == 10);
        },
        Frame::Null => {
            let d = decimal_bytes(-1);
            assert(d =~= seq![45u8, 49u8]);
            lemma_part(s, p, e, 1, e.len() as int);
            assert(e.subrange(1, e.len() as int) =~= d + crlf());
            lemma_number_at(s, p + 1, -1);
        },
        Frame::Array(items) => {
            let d = decimal_bytes(items.len() as int);
            let h: int = 1 + d.len() as int + 2;
            lemma_part(s, p, e, 1, h);
            assert(e.subrange(1, h) =~= d + crlf());
            lemma_number_at(s, p + 1, items.len() as int);
            lemma_part(s, p, e, h, e.len() as int);
            assert(e.subrange(h, e.len() as int) =~= encode_all(items));
            lemma_decode_encoded_all(items, s, p + h);
        },
    }
}

/// Frames encoded one after the other at `p` decode to themselves.
pub proof fn lemma_decode_encoded_all(items: Seq<Frame>, s: Seq<u8>, p: int)
    requires
        forall|i: int| 0 <= i < items.len() ==> well_formed(#[trigger] items[i]),
        0 <= p,
        p + encode_all(items).len() <= s.len(),
        s.subrange(p, p + encode_all(items).len()) == encode_all(items),
    ensures
        spec_items(s, p, items.len()) == Ok::<_, Fault>((items, p + encode_all(items).len())),
    decreases items,
{
    if items.len() == 0 {
        assert(items =~= Seq::<Frame>::empty());
    } else {
        let e = encode_all(items);
        let f0 = items[0];
        let rest = items.subrange(1, items.len() as int);
        let e0 = encode(f0);
        lemma_part(s, p, e, 0, e0.len() as int);
        assert(e.subrange(0, e0.len() as int) =~= e0);
        lemma_part(s, p, e, e0.len() as int, e.len() as int);
        assert(e.subrange(e0.len() as int, e.len() as int) =~= encode_all(rest));
        lemma_decode_encoded(f0, s, p);
        assert(forall|i: int| 0 <= i < rest.len() ==> #[trigger] rest[i] == items[i + 1]);
        lemma_decode_encoded_all(rest, s, p + e0.len());
        assert(seq![f0] + rest =~= items);
        assert(e0.len() > 0);
    }
}

/// Decoding the encoding of a well-formed frame, followed by any bytes at
/// all, gives the frame back and stops right after its encoding. A null
/// array is not among the frames: the encoder writes every null as a null
/// bulk string, which decodes to the same null.
pub proof fn lemma_round_trip(f: Frame, rest: Seq<u8>)
    requires
        well_formed(f),
    ensures
        spec_frame(encode(f) + rest, 0) == Ok::<_, Fault>((f, encode(f).len() as int)),
{
    let s = encode(f) + rest;
    assert(s.subrange(0, encode(f).len() as int) =~= encode(f));
    lemma_decode_encoded(f, s, 0);
}

impl Message {
    pub fn text(content: &str) -> (r: Self)
        ensures
            r@ == Frame::Text(content@),
    {
        Message::Text(content.to_owned())
    }

    pub fn error(content: &str) -> (r: Self)
        ensures
            r@ == Frame::Error(content@),
    {
        Message::Error(content.to_owned())
    }

    pub fn bin(content: &[u8]) -> (r: Self)
        ensures
            r@ == Frame::Binary(content@),
    {
        Message::Binary(slice_to_vec(content))
    }

    /// Appends the encoding of the message to `out`.
    pub fn write(&self, out: &mut Vec<u8>)
        ensures
            final(out)@ == old(out)@ + encode(self@),
        decreases self,
    {
        let ghost start = out@;
        match self {
            Message::Text(t) => {
                out.push(43);
                append_bytes(out, t.as_str().as_bytes());
                append_crlf(out);
            },
            Message::Error(t) => {
                out.push(45);
                append_bytes(out, t.as_str().as_bytes());
                append_crlf(out);
            },
            Message::Integer(n) => {
                out.push(58);
                push_signed(out, *n);
                append_crlf(out);
            },
            Message::Binary(b) => {
                out.push(36);
                push_unsigned(out, b.len() as u64);
                append_crlf(out);
                append_bytes(out, b.as_slice());
                append_crlf(out);
            },
            Message::Null => {
                out.push(36);
                out.push(45);
                out.push(49);
                append_crlf(out);
            },
            Message::Array(items) => {
                out.push(42);
                push_unsigned(out, items.len() as u64);
                append_crlf(out);
                let ghost fs = frames(items@);
                let ghost head = out@;
                assert(start + encode(self@) =~= head + encode_all(fs));
                assert(fs.subrange(0, fs.len() as int) =~= fs);
                let mut i: usize = 0;
                while i < items.len()
                    invariant
                        i <= items@.len(),
                        fs == frames(items@),
                        *self == Message::Array(*items),
                        start + encode(self@) == out@ + encode_all(fs.subrange(i as int, fs.len() as int)),
                    decreases items@.len() - i,
                {
                    let ghost before = out@;
                    proof {
                        assert((*self)->Array_0 == *items);
                        assert(decreases_to!(*self => (*self)->Array_0));
                        assert(decreases_to!(*items => items@));
                        assert(decreases_to!(items@ => items@[i as int]));
                    }
                    items[i].write(out);
                    proof {
                        let rest = fs.subrange(i as int, fs.len() as int);
                        assert(rest[0] == items@[i as int]@);
                        assert(rest.subrange(1, rest.len() as int) =~= fs.subrange(i + 1, fs.len() as int));
                        assert(before + encode_all(rest) =~= out@ + encode_all(fs.subrange(i + 1, fs.len() as int)));
                    }
                    i = i + 1;
                }
                assert(fs.subrange(i as int, fs.len() as int) =~= Seq::<Frame>::empty());
                assert(out@ + Seq::<u8>::empty() =~= out@);
            },
        }
        assert(out@ =~= start + encode(self@));
    }
    /// Decodes the message at the start of `input`; returns it with the
    /// number of bytes it takes. Running out of input is an `Io` error.
    pub fn read(input: &[u8]) -> (r: Result<(Message, usize), MiniRedisError>)
        ensures
            match r {
                Ok((m, n)) => spec_frame(input@, 0) == Ok::<_, Fault>((m@, n as int)) && 0 < n <= input@.len(),
                Err(e) => spec_frame(input@, 0) == Err::<(Frame, int), _>(e@),
            },
    {
        decode_at(input, 0)
    }
}

} // verus!
