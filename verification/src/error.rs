//! Error taxonomy. Every failure of decoding, dispatch legality, or
//! reassembly is reported as a typed error; where the input arrived as a
//! datagram, the original bytes ride along so the caller decides disposal.

use vstd::prelude::*;

verus! {

/// Why decoding a header or an address from wire bytes failed.
#[derive(Clone, Copy, PartialEq, Eq, Structural, Debug)]
pub enum DecodeErr {
    /// The buffer ends before the structure it declares.
    Truncated,
    /// The first byte is not the supported protocol version.
    BadVersion(u8),
    /// The command tag is not one of the five known commands.
    BadCommand(u8),
    /// The address-type tag is not one of the four known kinds.
    BadAddressType(u8),
}

/// Why registering a fragment with the reassembly state failed.
#[derive(Clone, Copy, PartialEq, Eq, Structural, Debug)]
pub enum AssembleError {
    /// The fragment index is not below the declared fragment count, or the
    /// declared count is zero.
    InvalidFragment,
    /// A fragment with this index was already buffered for this packet.
    DuplicateFragment,
    /// The declared fragment count disagrees with fragments buffered earlier
    /// for the same packet.
    FragmentMismatch,
}

/// Uniform failure classification for the whole adapter.
#[derive(Debug)]
pub enum Error {
    /// The transport reports no unreliable-datagram support.
    DatagramUnsupported,
    /// The datagram size limit cannot fit a fragment header plus one byte of
    /// payload; the limit is attached.
    DatagramTooSmall(usize),
    /// The payload would need more fragments than the wire format can number.
    TooManyFragments,
    /// A fragment declares this payload length (first) but only this many
    /// bytes are available (second).
    PayloadLength(usize, usize),
    /// A packet refers to an association this connection does not know.
    InvalidUdpSession(u16),
    /// The reassembly state rejected a fragment.
    Assemble(AssembleError),
    /// Header decoding failed on a unidirectional stream.
    UnmarshalUniStream(DecodeErr),
    /// Header decoding failed on a bidirectional stream.
    UnmarshalBiStream(DecodeErr),
    /// Header decoding failed on a datagram; the original bytes are returned.
    UnmarshalDatagram(DecodeErr, Vec<u8>),
    /// The named command is not legal on a unidirectional stream for this
    /// role.
    BadCommandUniStream(&'static str),
    /// The named command is not legal on a bidirectional stream for this
    /// role.
    BadCommandBiStream(&'static str),
    /// The named command is not legal on a datagram for this role; the
    /// original bytes are returned.
    BadCommandDatagram(&'static str, Vec<u8>),
}

} // verus!
