//! A compact binary format for positions, moves, outcomes and whole games.
pub mod board;
pub mod encoding;
pub mod game;

use vstd::prelude::*;

verus! {

/// How many more bytes a decoder needs before it can finish.
#[derive(Debug, Clone, Copy, PartialEq, Eq, Structural)]
pub enum Needed {
    /// The number of missing bytes is not known.
    Unknown,
    /// At least this many more bytes are needed.
    Size(usize),
}

/// Why a value could not be written.
#[derive(Debug, Clone, Copy, PartialEq, Eq, Structural)]
pub enum EncodeError {
    /// A length does not fit in the four bytes the format gives it.
    LengthOverflow,
}

/// Values that can be written in the binary format.
pub trait ToBytes {
    /// What writing the value appends: `Ok` with the whole encoding, or `Err` with the
    /// bytes written before the value was found not to fit the format.
    spec fn encoding(&self) -> Result<Seq<u8>, Seq<u8>>;

    /// Appends the encoding of the value.
    fn to_bytes(&self, bytes: &mut Vec<u8>) -> (r: Result<(), EncodeError>)
        ensures
            match self.encoding() {
                Ok(e) => r is Ok && final(bytes)@ == old(bytes)@ + e,
                Err(p) => r is Err && final(bytes)@ == old(bytes)@ + p,
            },
    ;
}

/// Values that can be read from the binary format.
pub trait FromBytes: Sized + View {
    /// What reading from the start of the given bytes gives: the number of bytes read and
    /// the view of the value, or how many more bytes are needed.
    spec fn decoding(b: Seq<u8>) -> Result<(int, Self::V), Needed>;

    /// Reads a value from the start of the bytes.
    fn from_bytes(b: &[u8]) -> (r: Result<(usize, Self), Needed>)
        ensures
            match (r, Self::decoding(b@)) {
                (Ok((n, v)), Ok((m, w))) => n == m && v@ == w,
                (Err(e), Err(f)) => e == f,
                _ => false,
            },
    ;
}

} // verus!
