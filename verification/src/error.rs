use vstd::prelude::*;

verus! {

/// Errors that can occur while processing packets.
#[derive(Debug, Clone, Copy, PartialEq, Eq, Structural)]
pub enum ErrorKind {
    /// Error in decoding the packet
    DecodingError(DecodingErrorKind),
    /// Error relating to receiving or parsing a fragment
    FragmentError(FragmentErrorKind),
    /// Error relating to receiving or parsing a packet
    PacketError(PacketErrorKind),
    /// Protocol versions did not match
    ProtocolVersionMismatch,
    /// Could not read the header
    CouldNotReadHeader,
    /// Did not receive enough data
    ReceivedDataToShort,
    /// A read ran past the end of the received data
    IOError,
}

/// Errors that could occur while decoding a header field.
#[derive(Debug, Clone, Copy, PartialEq, Eq, Structural)]
pub enum DecodingErrorKind {
    /// Error parsing the packet type
    PacketType,
    /// Error parsing the ordering guarantee
    OrderingGuarantee,
    /// Error parsing the delivery guarantee
    DeliveryGuarantee,
}

/// Errors that could occur with constructing or parsing packets.
#[derive(Debug, Clone, Copy, PartialEq, Eq, Structural)]
pub enum PacketErrorKind {
    /// The maximal allowed size of the packet was exceeded
    ExceededMaxPacketSize,
    /// Only `PacketType::Packet` can be fragmented
    PacketTypeCannotBeFragmented,
}

/// Errors that could occur while handling fragments.
#[derive(Debug, Clone, Copy, PartialEq, Eq, Structural)]
pub enum FragmentErrorKind {
    /// Fragment was received without an acknowledgement header where one was expected
    PacketHeaderNotFound,
    /// Max number of allowed fragments has been exceeded
    ExceededMaxFragments,
    /// This fragment was already processed
    AlreadyProcessedFragment,
    /// Attempted to fragment with an incorrect number of fragments
    FragmentWithUnevenNumberOfFragments,
    /// Entry in the fragment buffer could not be found
    CouldNotFindFragmentById,
}

} // verus!
