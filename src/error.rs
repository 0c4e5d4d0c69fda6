use vstd::prelude::*;

verus! {

/// `std::io::Error`, held opaque: the error of a failed file read, and the error that
/// `ico::IconDir::read` returns for a malformed icon container.
#[verifier::external_type_specification]
#[verifier::external_body]
pub struct ExIoError(std::io::Error);

/// A four-byte chunk tag, compared byte for byte.
pub type Identifier = [u8; 4];

/// Why a decode failed.
#[non_exhaustive]
#[derive(Debug)]
pub enum DecodeError {
    /// Reading the input failed before decoding began.
    ReadFailure { source: std::io::Error },
    /// A read asked for more bytes than remain.
    NotEnoughBytes { needed: usize },
    /// The next chunk had another identifier than the grammar asks for.
    UnexpectedIdentifier { expected: Identifier, actual: Identifier },
    /// An identifier that no chunk kind of the format uses.
    UnknownIdentifier { actual: Identifier },
    /// The declared container size exceeds the bytes that follow it.
    SizeMismatch { expected: usize, actual: usize },
    /// The header chunk declared a size other than 36.
    InvalidHeaderSize { actual: u32 },
    /// A table of `u32` values whose byte length is not a multiple of 4.
    InvalidAlignmentU32,
    /// A mandatory chunk never appeared.
    MissingChunk { expected: Identifier },
    /// The payload of an `icon` chunk is not a well-formed icon directory.
    InvalidIcon,
}

/// The identifier made of the first four bytes of `s`.
pub open spec fn id_of(s: Seq<u8>) -> Identifier {
    [s[0], s[1], s[2], s[3]]
}

} // verus!
