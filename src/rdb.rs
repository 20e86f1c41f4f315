use vstd::prelude::*;
use vstd::slice::slice_to_vec;

use vstd::utf8::{decode_utf8, encode_utf8, valid_utf8};

use crate::error::{early_eof_error, early_eof_fault, eof_error, eof_fault, Fault, MiniRedisError};
use crate::keymap::{bytes_eq, ByteMap};
use crate::text::{
    decimal_bytes, decimal_u32, parse_u32, push_unsigned, string_from_utf8, u32_error_text,
    utf8_error_text,
};

verus! {

/// A parsed snapshot: the format version, the auxiliary fields that are
/// recognised, the values and the expiry timestamps (milliseconds since the
/// Unix epoch).
#[derive(Debug)]
pub struct Rdb {
    pub version: u32,
    pub aux_redis_ver: Option<String>,
    pub aux_redis_bits: Option<String>,
    pub aux_ctime: Option<String>,
    pub aux_used_men: Option<String>,
    pub values: ByteMap<RedisString>,
    pub expiry: ByteMap<u64>,
}

/// The mathematical value of an [`Rdb`].
pub struct RdbModel {
    pub version: u32,
    pub redis_ver: Option<Seq<char>>,
    pub redis_bits: Option<Seq<char>>,
    pub ctime: Option<Seq<char>>,
    pub used_mem: Option<Seq<char>>,
    pub values: Map<Seq<u8>, Seq<u8>>,
    pub expiry: Map<Seq<u8>, u64>,
}

pub open spec fn text_of(o: Option<String>) -> Option<Seq<char>> {
    match o {
        Some(t) => Some(t@),
        None => None,
    }
}

impl View for Rdb {
    type V = RdbModel;

    open spec fn view(&self) -> RdbModel {
        RdbModel {
            version: self.version,
            redis_ver: text_of(self.aux_redis_ver),
            redis_bits: text_of(self.aux_redis_bits),
            ctime: text_of(self.aux_ctime),
            used_mem: text_of(self.aux_used_men),
            values: self.values@.map_values(|v: RedisString| v@),
            expiry: self.expiry@,
        }
    }
}

/// A snapshot of the given version with no fields and no keys.
pub open spec fn empty_model(version: u32) -> RdbModel {
    RdbModel {
        version,
        redis_ver: None,
        redis_bits: None,
        ctime: None,
        used_mem: None,
        values: Map::empty(),
        expiry: Map::empty(),
    }
}

/// `m` with the auxiliary field `name` set to `text`, where the name is one
/// of the four recognised ones; `m` unchanged otherwise.
pub open spec fn with_aux(m: RdbModel, name: Seq<u8>, text: Seq<char>) -> RdbModel {
    if name == encode_utf8("redis-ver"@) {
        RdbModel { redis_ver: Some(text), ..m }
    } else if name == encode_utf8("redis-bits"@) {
        RdbModel { redis_bits: Some(text), ..m }
    } else if name == encode_utf8("ctime"@) {
        RdbModel { ctime: Some(text), ..m }
    } else if name == encode_utf8("used-mem"@) {
        RdbModel { used_mem: Some(text), ..m }
    } else {
        m
    }
}

pub open spec fn is_aux_name(name: Seq<u8>) -> bool {
    ||| name == encode_utf8("redis-ver"@)
    ||| name == encode_utf8("redis-bits"@)
    ||| name == encode_utf8("ctime"@)
    ||| name == encode_utf8("used-mem"@)
}

/// `m` with `key` set to `value`, and to the pending expiry if there is one.
pub open spec fn with_entry(m: RdbModel, key: Seq<u8>, value: Seq<u8>, pending: Option<u64>) -> RdbModel {
    RdbModel {
        values: m.values.insert(key, value),
        expiry: match pending {
            Some(t) => m.expiry.insert(key, t),
            None => m.expiry,
        },
        ..m
    }
}

/// The auxiliary field record whose payload starts at `p`, applied to `m`;
/// with the position after it.
pub open spec fn spec_aux(s: Seq<u8>, p: int, m: RdbModel) -> Result<(RdbModel, int), Fault> {
    match spec_string(s, p) {
        Err(f) => Err(f),
        Ok((name, q)) => match spec_string(s, q) {
            Err(f) => Err(f),
            Ok((value, r)) => if !is_aux_name(name) {
                Ok((m, r))
            } else if !valid_utf8(value) {
                Err(Fault::InvalidText(utf8_error_text(value)))
            } else {
                Ok((with_aux(m, name, decode_utf8(value)), r))
            },
        },
    }
}

/// The key/value record whose payload starts at `p`, applied to `m`; with
/// the position after it.
pub open spec fn spec_entry(s: Seq<u8>, p: int, m: RdbModel, pending: Option<u64>) -> Result<
    (RdbModel, int),
    Fault,
> {
    match spec_string(s, p) {
        Err(f) => Err(f),
        Ok((key, q)) => match spec_string(s, q) {
            Err(f) => Err(f),
            Ok((value, r)) => Ok((with_entry(m, key, value, pending), r)),
        },
    }
}

/// What one record does.
pub enum Step {
    /// The end-of-file opcode.
    End,
    Fail(Fault),
    /// Go on at a position, with a new snapshot and pending expiry.
    Next(int, RdbModel, Option<u64>),
}

/// The record at `p`, applied to `m` with `pending` the expiry that waits for
/// the next key.
pub open spec fn spec_step(s: Seq<u8>, p: int, m: RdbModel, pending: Option<u64>) -> Step {
    if p < 0 || p >= s.len() {
        Step::Fail(eof_fault())
    } else {
        let op = s[p];
        if op == 0xFF {
            Step::End
        } else if op == 0xFA {
            match spec_aux(s, p + 1, m) {
                Err(f) => Step::Fail(f),
                Ok((m2, q)) => Step::Next(q, m2, pending),
            }
        } else if op == 0xFE {
            match spec_string(s, p + 1) {
                Err(f) => Step::Fail(f),
                Ok((id, q)) => if id.len() == 0 {
                    Step::Next(q, m, pending)
                } else {
                    Step::Fail(Fault::UnsupportedDatabase)
                },
            }
        } else if op == 0xFB {
            match spec_integer(s, p + 1) {
                Err(f) => Step::Fail(f),
                Ok((_, q)) => match spec_integer(s, q) {
                    Err(f) => Step::Fail(f),
                    Ok((_, r)) => Step::Next(r, m, pending),
                },
            }
        } else if op == 0xFC {
            if p + 9 > s.len() {
                Step::Fail(eof_fault())
            } else {
                Step::Next(p + 9, m, Some(le_value(s, p + 1, 8) as u64))
            }
        } else if op == 0xFD {
            if p + 5 > s.len() {
                Step::Fail(eof_fault())
            } else {
                Step::Next(p + 5, m, Some((le_value(s, p + 1, 4) * 1000) as u64))
            }
        } else if op == 0x00 {
            match spec_entry(s, p + 1, m, pending) {
                Err(f) => Step::Fail(f),
                Ok((m2, q)) => Step::Next(q, m2, None),
            }
        } else {
            Step::Next(p + 1, m, pending)
        }
    }
}

/// The records from position `p` on, applied to `m`. Every record moves
/// forward, so the last branch is never taken; it makes the recursion
/// visibly finite.
pub open spec fn spec_records(s: Seq<u8>, p: int, m: RdbModel, pending: Option<u64>) -> Result<
    RdbModel,
    Fault,
>
    decreases s.len() - p,
{
    match spec_step(s, p, m, pending) {
        Step::End => Ok(m),
        Step::Fail(f) => Err(f),
        Step::Next(q, m2, pending2) => if p < q <= s.len() {
            spec_records(s, q, m2, pending2)
        } else {
            Err(eof_fault())
        },
    }
}

/// A whole snapshot: the magic `REDIS`, four ASCII digits of version, then
/// the records up to the end-of-file opcode.
pub open spec fn spec_rdb(s: Seq<u8>) -> Result<RdbModel, Fault> {
    if s.len() < 5 {
        Err(early_eof_fault())
    } else if s.subrange(0, 5) != encode_utf8("REDIS"@) {
        Err(Fault::InvalidRdbMagicNumber)
    } else if s.len() < 9 {
        Err(early_eof_fault())
    } else {
        let v = s.subrange(5, 9);
        if !valid_utf8(v) {
            Err(Fault::InvalidText(utf8_error_text(v)))
        } else {
            match decimal_u32(decode_utf8(v)) {
                None => Err(Fault::InvalidNumber(u32_error_text(decode_utf8(v)))),
                Some(version) => spec_records(s, 9, empty_model(version), None),
            }
        }
    }
}

impl Rdb {
    pub open spec fn wf(&self) -> bool {
        self.values.wf() && self.expiry.wf()
    }

    /// The invariant of a parsed snapshot: every key with an expiry has a value.
    pub open spec fn keys_consistent(&self) -> bool {
        self@.expiry.dom().subset_of(self@.values.dom())
    }

    /// Applies the auxiliary field record whose payload starts at `pos`.
    fn read_aux(&mut self, input: &[u8], pos: usize) -> (r: Result<usize, MiniRedisError>)
        requires
            old(self).wf(),
        ensures
            final(self).wf(),
            final(self)@.values == old(self)@.values,
            final(self)@.expiry == old(self)@.expiry,
            match r {
                Ok(q) => spec_aux(input@, pos as int, old(self)@) == Ok::<_, Fault>((final(self)@, q as int)),
                Err(e) => spec_aux(input@, pos as int, old(self)@) is Err && spec_aux(input@, pos as int, old(self)@)->Err_0 == e@,
            },
    {
        let (name, q) = RedisString::read(input, pos)?;
        let (value, r) = RedisString::read(input, q)?;
        let n = name.as_slice();
        if bytes_eq(n, "redis-ver".as_bytes()) {
            self.aux_redis_ver = Some(value.into_text()?);
        } else if bytes_eq(n, "redis-bits".as_bytes()) {
            self.aux_redis_bits = Some(value.into_text()?);
        } else if bytes_eq(n, "ctime".as_bytes()) {
            self.aux_ctime = Some(value.into_text()?);
        } else if bytes_eq(n, "used-mem".as_bytes()) {
            self.aux_used_men = Some(value.into_text()?);
        }
        Ok(r)
    }

    /// Applies the key/value record whose payload starts at `pos`.
    fn read_entry(&mut self, input: &[u8], pos: usize, pending: Option<u64>) -> (r: Result<usize, MiniRedisError>)
        requires
            old(self).wf(),
            old(self).keys_consistent(),
        ensures
            final(self).wf(),
            final(self).keys_consistent(),
            match r {
                Ok(q) => spec_entry(input@, pos as int, old(self)@, pending) == Ok::<_, Fault>((final(self)@, q as int)),
                Err(e) => spec_entry(input@, pos as int, old(self)@, pending) is Err
                    && spec_entry(input@, pos as int, old(self)@, pending)->Err_0 == e@,
            },
    {
        let (key, q) = RedisString::read(input, pos)?;
        let (value, r) = RedisString::read(input, q)?;
        let ghost pre = self@;
        if let Some(t) = pending {
            self.expiry.insert(RedisString::new(key.as_slice()), t);
        }
        self.values.insert(key, value);
        assert(self@.values =~= pre.values.insert(key@, value@));
        assert(self@ == with_entry(pre, key@, value@, pending));
        Ok(r)
    }

    /// Applies the record at `pos`; `None` at the end-of-file opcode, else the
    /// position of the next record.
    fn read_record(&mut self, input: &[u8], pos: usize, pending: &mut Option<u64>) -> (r: Result<Option<usize>, MiniRedisError>)
        requires
            old(self).wf(),
            old(self).keys_consistent(),
        ensures
            final(self).wf(),
            final(self).keys_consistent(),
            match spec_step(input@, pos as int, old(self)@, *old(pending)) {
                Step::End => r == Ok::<_, MiniRedisError>(None::<usize>) && final(self)@ == old(self)@,
                Step::Fail(f) => r is Err && r->Err_0@ == f,
                Step::Next(q, m, p) => r == Ok::<_, MiniRedisError>(Some(q as usize)) && final(self)@ == m
                    && *final(pending) == p && pos < q <= input@.len(),
            },
    {
        if pos >= input.len() {
            return Err(eof_error());
        }
        let op = input[pos];
        if op == 0xFF {
            Ok(None)
        } else if op == 0xFA {
            Ok(Some(self.read_aux(input, pos + 1)?))
        } else if op == 0xFE {
            let (id, q) = RedisString::read(input, pos + 1)?;
            if id.as_slice().len() != 0 {
                return Err(MiniRedisError::UnsupportedDatabase);
            }
            Ok(Some(q))
        } else if op == 0xFB {
            let (_, q) = read_integer(input, pos + 1)?;
            let (_, r) = read_integer(input, q)?;
            Ok(Some(r))
        } else if op == 0xFC {
            *pending = Some(read_le(input, pos + 1, 8)?);
            Ok(Some(pos + 9))
        } else if op == 0xFD {
            let secs = read_le(input, pos + 1, 4)?;
            proof {
                lemma_le_bound(input@, pos + 1, 4);
                reveal_with_fuel(pow256, 5);
            }
            *pending = Some(secs * 1000);
            Ok(Some(pos + 5))
        } else if op == 0x00 {
            let q = self.read_entry(input, pos + 1, *pending)?;
            *pending = None;
            Ok(Some(q))
        } else {
            Ok(Some(pos + 1))
        }
    }

    /// Parses a whole snapshot. Every key with an expiry also has a value.
    pub fn read(input: &[u8]) -> (r: Result<Rdb, MiniRedisError>)
        ensures
            match r {
                Ok(db) => {
                    &&& db.wf()
                    &&& spec_rdb(input@) == Ok::<_, Fault>(db@)
                    &&& db@.expiry.dom().subset_of(db@.values.dom())
                },
                Err(e) => spec_rdb(input@) == Err::<RdbModel, _>(e@),
            },
    {
        if input.len() < 5 {
            return Err(early_eof_error());
        }
        if !bytes_eq(&input[0..5], "REDIS".as_bytes()) {
            return Err(MiniRedisError::InvalidRdbMagicNumber);
        }
        if input.len() < 9 {
            return Err(early_eof_error());
        }
        let version_text = match string_from_utf8(slice_to_vec(&input[5..9])) {
            Ok(t) => t,
            Err(m) => return Err(MiniRedisError::InvalidText(m)),
        };
        let version = match parse_u32(version_text.as_str()) {
            Ok(v) => v,
            Err(m) => return Err(MiniRedisError::InvalidNumber(m)),
        };
        let mut out = Rdb {
            version,
            aux_redis_ver: None,
            aux_redis_bits: None,
            aux_ctime: None,
            aux_used_men: None,
            values: ByteMap::new(),
            expiry: ByteMap::new(),
        };
        assert(out@ == empty_model(version)) by {
            assert(out@.values =~= Map::<Seq<u8>, Seq<u8>>::empty());
        }
        let mut pending: Option<u64> = None;
        let mut pos: usize = 9;
        loop
            invariant
                out.wf(),
                9 <= pos <= input.len(),
                spec_rdb(input@) == spec_records(input@, pos as int, out@, pending),
                out@.expiry.dom().subset_of(out@.values.dom()),
            decreases input.len() - pos,
        {
            match out.read_record(input, pos, &mut pending)? {
                None => return Ok(out),
                Some(q) => pos = q,
            }
        }
    }
}

/// A binary-safe string: keys and values of the keyspace.
#[derive(PartialEq, Eq, Hash, Clone, Debug)]
pub struct RedisString(Vec<u8>);

impl View for RedisString {
    type V = Seq<u8>;

    closed spec fn view(&self) -> Seq<u8> {
        self.0@
    }
}

impl RedisString {
    pub fn new(input: &[u8]) -> (r: Self)
        ensures
            r@ == input@,
    {
        RedisString(slice_to_vec(input))
    }

    pub fn as_slice(&self) -> (r: &[u8])
        ensures
            r@ == self@,
    {
        self.0.as_slice()
    }

    /// The bytes as UTF-8 text.
    pub fn into_text(self) -> (r: Result<String, MiniRedisError>)
        ensures
            match r {
                Ok(t) => valid_utf8(self@) && t@ == decode_utf8(self@),
                Err(e) => !valid_utf8(self@) && e@ == Fault::InvalidText(utf8_error_text(self@)),
            },
    {
        match string_from_utf8(self.0) {
            Ok(t) => Ok(t),
            Err(m) => Err(MiniRedisError::InvalidText(m)),
        }
    }

    /// Reads a length-encoded string at `pos`; returns it with the position after it.
    pub fn read(input: &[u8], pos: usize) -> (r: Result<(Self, usize), MiniRedisError>)
        ensures
            match r {
                Ok((v, q)) => spec_string(input@, pos as int) == Ok::<_, Fault>((v@, q as int)),
                Err(e) => spec_string(input@, pos as int) == Err::<(Seq<u8>, int), _>(e@),
            },
    {
        let (enc, q) = LengthEncoding::read(input, pos)?;
        match enc {
            LengthEncoding::Fixed(len) => {
                if len > input.len() - q {
                    return Err(early_eof_error());
                }
                Ok((RedisString::new(&input[q..q + len]), q + len))
            },
            _ => {
                let width = enc.int_width();
                let value = read_le(input, q, width)?;
                let mut payload: Vec<u8> = Vec::new();
                push_unsigned(&mut payload, value);
                assert(payload@ =~= decimal_bytes(le_value(input@, q as int, width as nat)));
                Ok((RedisString(payload), q + width))
            },
        }
    }
}

/// How the length of a string, or an integer stored as a string, is encoded.
#[derive(Debug, PartialEq, Eq, Structural, Clone, Copy)]
pub enum LengthEncoding {
    /// A length; that many raw bytes follow.
    Fixed(usize),
    /// A one-byte unsigned integer follows.
    Int8,
    /// A two-byte little-endian unsigned integer follows.
    Int16,
    /// A four-byte little-endian unsigned integer follows.
    Int32,
}

/// The unsigned little-endian integer held by the `w` bytes of `s` at `p`.
pub open spec fn le_value(s: Seq<u8>, p: int, w: nat) -> int
    decreases w,
{
    if w == 0 {
        0
    } else {
        s[p] as int + 256 * le_value(s, p + 1, (w - 1) as nat)
    }
}

pub open spec fn pow256(w: nat) -> int
    decreases w,
{
    if w == 0 {
        1
    } else {
        256 * pow256((w - 1) as nat)
    }
}

proof fn lemma_pow256_mono(a: nat, b: nat)
    requires
        a <= b,
    ensures
        1 <= pow256(a) <= pow256(b),
    decreases b,
{
    if a < b {
        lemma_pow256_mono(a, (b - 1) as nat);
    } else if a > 0 {
        lemma_pow256_mono((a - 1) as nat, (a - 1) as nat);
    }
}

/// The length encoding at `p` and the position after it.
pub open spec fn spec_length(s: Seq<u8>, p: int) -> Result<(LengthEncoding, int), Fault> {
    if p < 0 || p >= s.len() {
        Err(eof_fault())
    } else {
        let b0 = s[p];
        let low = (b0 % 64) as int;
        if b0 < 64 {
            Ok((LengthEncoding::Fixed(low as usize), p + 1))
        } else if b0 < 128 {
            if p + 2 > s.len() {
                Err(eof_fault())
            } else {
                Ok((LengthEncoding::Fixed((low * 256 + s[p + 1]) as usize), p + 2))
            }
        } else if b0 < 192 {
            if p + 4 > s.len() {
                Err(eof_fault())
            } else {
                Ok(
                    (
                        LengthEncoding::Fixed(
                            (low * 16777216 + s[p + 1] * 65536 + s[p + 2] * 256 + s[p + 3]) as usize,
                        ),
                        p + 4,
                    ),
                )
            }
        } else if low == 0 {
            Ok((LengthEncoding::Int8, p + 1))
        } else if low == 1 {
            Ok((LengthEncoding::Int16, p + 1))
        } else if low == 2 {
            Ok((LengthEncoding::Int32, p + 1))
        } else {
            Err(Fault::UnsupportedLengthEncoding)
        }
    }
}

impl LengthEncoding {
    /// The number of bytes of an integer encoding; 0 for `Fixed`.
    pub open spec fn spec_width(self) -> nat {
        match self {
            LengthEncoding::Fixed(_) => 0,
            LengthEncoding::Int8 => 1,
            LengthEncoding::Int16 => 2,
            LengthEncoding::Int32 => 4,
        }
    }

    fn int_width(&self) -> (r: usize)
        ensures
            r == self.spec_width(),
    {
        match self {
            LengthEncoding::Fixed(_) => 0,
            LengthEncoding::Int8 => 1,
            LengthEncoding::Int16 => 2,
            LengthEncoding::Int32 => 4,
        }
    }

    /// Reads the length encoding at `pos`; returns it with the position after it.
    pub fn read(input: &[u8], pos: usize) -> (r: Result<(Self, usize), MiniRedisError>)
        ensures
            match r {
                Ok((enc, q)) => spec_length(input@, pos as int) == Ok::<_, Fault>((enc, q as int)),
                Err(e) => spec_length(input@, pos as int) == Err::<(LengthEncoding, int), _>(e@),
            },
    {
        if pos >= input.len() {
            return Err(eof_error());
        }
        let b0 = input[pos];
        let low = b0 % 64;
        if b0 < 64 {
            Ok((LengthEncoding::Fixed(low as usize), pos + 1))
        } else if b0 < 128 {
            if input.len() - pos < 2 {
                return Err(eof_error());
            }
            Ok((LengthEncoding::Fixed(low as usize * 256 + input[pos + 1] as usize), pos + 2))
        } else if b0 < 192 {
            if input.len() - pos < 4 {
                return Err(eof_error());
            }
            let len = low as usize * 16777216 + input[pos + 1] as usize * 65536
                + input[pos + 2] as usize * 256 + input[pos + 3] as usize;
            Ok((LengthEncoding::Fixed(len), pos + 4))
        } else if low == 0 {
            Ok((LengthEncoding::Int8, pos + 1))
        } else if low == 1 {
            Ok((LengthEncoding::Int16, pos + 1))
        } else if low == 2 {
            Ok((LengthEncoding::Int32, pos + 1))
        } else {
            Err(MiniRedisError::UnsupportedLengthEncoding)
        }
    }
}

/// Reads the `width`-byte little-endian unsigned integer at `pos`.
fn read_le(input: &[u8], pos: usize, width: usize) -> (r: Result<u64, MiniRedisError>)
    requires
        width <= 8,
    ensures
        match r {
            Ok(v) => pos + width <= input.len() && v == le_value(input@, pos as int, width as nat),
            Err(e) => pos + width > input@.len() && e@ == eof_fault(),
        },
{
    if pos > input.len() || input.len() - pos < width {
        return Err(eof_error());
    }
    let mut acc: u64 = 0;
    let mut i: usize = width;
    proof {
        lemma_pow256_mono(width as nat, 8);
        reveal_with_fuel(pow256, 9);
        assert(pow256(8) == 0x1_0000_0000_0000_0000);
    }
    while i > 0
        invariant
            i <= width <= 8,
            pos + width <= input.len(),
            acc == le_value(input@, pos + i, (width - i) as nat),
            acc < pow256((width - i) as nat),
            pow256(width as nat) <= 0x1_0000_0000_0000_0000,
        decreases i,
    {
        i = i - 1;
        proof {
            lemma_pow256_mono((width - i) as nat, width as nat);
        }
        acc = acc * 256 + input[pos + i] as u64;
    }
    Ok(acc)
}

/// The string at `p` and the position after it.
pub open spec fn spec_string(s: Seq<u8>, p: int) -> Result<(Seq<u8>, int), Fault> {
    match spec_length(s, p) {
        Err(f) => Err(f),
        Ok((enc, q)) => match enc {
            LengthEncoding::Fixed(n) => if q + n > s.len() {
                Err(early_eof_fault())
            } else {
                Ok((s.subrange(q, q + n), q + n))
            },
            _ => if q + enc.spec_width() > s.len() {
                Err(eof_fault())
            } else {
                Ok((decimal_bytes(le_value(s, q, enc.spec_width())), q + enc.spec_width()))
            },
        },
    }
}

/// The integer at `p` and the position after it.
pub open spec fn spec_integer(s: Seq<u8>, p: int) -> Result<(int, int), Fault> {
    match spec_length(s, p) {
        Err(f) => Err(f),
        Ok((enc, q)) => match enc {
            LengthEncoding::Fixed(n) => Ok((n as int, q)),
            _ => if q + enc.spec_width() > s.len() {
                Err(eof_fault())
            } else {
                Ok((le_value(s, q, enc.spec_width()), q + enc.spec_width()))
            },
        },
    }
}

/// Reads a length-encoded integer at `pos`; returns it with the position after it.
pub fn read_integer(input: &[u8], pos: usize) -> (r: Result<(i64, usize), MiniRedisError>)
    ensures
        match r {
            Ok((v, q)) => spec_integer(input@, pos as int) == Ok::<_, Fault>((v as int, q as int)),
            Err(e) => spec_integer(input@, pos as int) == Err::<(int, int), _>(e@),
        },
{
    let (enc, q) = LengthEncoding::read(input, pos)?;
    match enc {
        LengthEncoding::Fixed(x) => Ok((x as i64, q)),
        _ => {
            let width = enc.int_width();
            let value = read_le(input, q, width)?;
            proof {
                lemma_pow256_mono(width as nat, 4);
                reveal_with_fuel(pow256, 5);
                assert(pow256(4) == 0x1_0000_0000);
                lemma_le_bound(input@, q as int, width as nat);
            }
            Ok((value as i64, q + width))
        },
    }
}

proof fn lemma_le_bound(s: Seq<u8>, p: int, w: nat)
    ensures
        0 <= le_value(s, p, w) < pow256(w),
    decreases w,
{
    if w > 0 {
        lemma_le_bound(s, p + 1, (w - 1) as nat);
    }
}

} // verus!
