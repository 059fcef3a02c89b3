//! The error type shared by the codec and the container format, and the
//! trait that ties each record's encoder, decoder and checks to its byte model.
use vstd::prelude::*;

verus! {

/// A field of the archive header or of a table-of-contents entry.
#[derive(Debug, Clone, Copy, PartialEq, Eq, Structural)]
pub enum Field {
    Magic,
    Separator,
    Producer,
    MajorVersion,
    MinorVersion,
    PatchVersion,
    EntryCount,
    EntryOffset,
    EntrySize,
    EntryPath,
}

/// A version triple: major, minor, patch.
#[derive(Debug, Clone, Copy, PartialEq, Eq, Structural)]
pub struct Version {
    pub major: u8,
    pub minor: u8,
    pub patch: u8,
}

#[derive(Debug, Clone, Copy, PartialEq, Eq, Structural)]
pub enum BinaryError {
    /// Fewer bytes remain than the value needs.
    UnexpectedEndOfInput,
    /// Bytes that had to be UTF-8 are not.
    InvalidEncoding,
    /// The named field could not be decoded.
    SyntaxError(Field),
    /// The magic tag or the producer identifier differs from this library's.
    IdentityMismatch(Field),
    /// The archive was written by another version of the format.
    IncorrectVersion { expected: Version, found: Version },
    /// Two table-of-contents entries share one path.
    DuplicatePath,
}

/// `r` is what a decoder returned after starting at `before` and stopping at
/// `after`, where `p` is the model's answer: the decoded value with the count
/// of bytes it took, or the error. A failed decoder leaves the position alone.
pub open spec fn decoded_as<T: View>(
    r: Result<T, BinaryError>,
    p: Result<(T::V, nat), BinaryError>,
    before: usize,
    after: usize,
) -> bool {
    match p {
        Ok((v, n)) => r is Ok && r->Ok_0@ == v && after == before + n,
        Err(e) => r == Err::<T, BinaryError>(e) && after == before,
    }
}

/// A record with a byte encoding and a semantic check.
pub trait Binary: Sized + View {
    /// The values that the encoding can hold (lengths fit their prefixes).
    spec fn encodable(v: Self::V) -> bool;

    /// The bytes that `serialize` appends.
    spec fn encoding(v: Self::V) -> Seq<u8>;

    /// What `deserialize` makes of the bytes that follow the position.
    spec fn parse(s: Seq<u8>) -> Result<(Self::V, nat), BinaryError>;

    /// What `check` returns.
    spec fn validate(v: Self::V) -> Result<(), BinaryError>;

    fn serialize(&self, writer: &mut Vec<u8>)
        requires
            Self::encodable(self@),
        ensures
            final(writer)@ == old(writer)@ + Self::encoding(self@),
    ;

    fn deserialize(data: &[u8], pos: &mut usize) -> (r: Result<Self, BinaryError>)
        requires
            *old(pos) <= data@.len(),
        ensures
            decoded_as(r, Self::parse(data@.skip(*old(pos) as int)), *old(pos), *final(pos)),
    ;

    fn check(&self) -> (r: Result<(), BinaryError>)
        ensures
            r == Self::validate(self@),
    ;
}

} // verus!
