use vstd::prelude::*;

verus! {

/// Errors of the codec and of the snapshot reader.
#[derive(Debug, PartialEq, Eq)]
pub enum MiniRedisError {
    Io(String),
    InvalidText(String),
    InvalidNumber(String),
    InvalidMessageType(char),
    InvalidMessageEnd,
    InvalidRdbMagicNumber,
    UnsupportedLengthEncoding,
    /// A snapshot selects a database other than the default one.
    UnsupportedDatabase,
}

/// The mathematical value of a [`MiniRedisError`]: messages as character sequences.
pub enum Fault {
    Io(Seq<char>),
    InvalidText(Seq<char>),
    InvalidNumber(Seq<char>),
    InvalidMessageType(char),
    InvalidMessageEnd,
    InvalidRdbMagicNumber,
    UnsupportedLengthEncoding,
    /// A snapshot selects a database other than the default one.
    UnsupportedDatabase,
}

impl View for MiniRedisError {
    type V = Fault;

    open spec fn view(&self) -> Fault {
        match self {
            MiniRedisError::Io(m) => Fault::Io(m@),
            MiniRedisError::InvalidText(m) => Fault::InvalidText(m@),
            MiniRedisError::InvalidNumber(m) => Fault::InvalidNumber(m@),
            MiniRedisError::InvalidMessageType(c) => Fault::InvalidMessageType(*c),
            MiniRedisError::InvalidMessageEnd => Fault::InvalidMessageEnd,
            MiniRedisError::InvalidRdbMagicNumber => Fault::InvalidRdbMagicNumber,
            MiniRedisError::UnsupportedLengthEncoding => Fault::UnsupportedLengthEncoding,
            MiniRedisError::UnsupportedDatabase => Fault::UnsupportedDatabase,
        }
    }
}

/// Input ran out while single bytes or fixed-width integers were read.
pub open spec fn eof_fault() -> Fault {
    Fault::Io("unexpected end of file"@)
}

/// Input ran out in the middle of a counted payload.
pub open spec fn early_eof_fault() -> Fault {
    Fault::Io("early eof"@)
}

pub fn eof_error() -> (e: MiniRedisError)
    ensures
        e@ == eof_fault(),
{
    MiniRedisError::Io("unexpected end of file".to_owned())
}

pub fn early_eof_error() -> (e: MiniRedisError)
    ensures
        e@ == early_eof_fault(),
{
    MiniRedisError::Io("early eof".to_owned())
}

} // verus!
