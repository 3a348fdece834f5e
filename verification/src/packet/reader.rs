use vstd::prelude::*;

use super::header::{
    AckedPacketHeader, ArrangingHeader, FragmentHeader, StandardHeader, decode_acked_header,
    decode_arranging_header, decode_fragment_header, decode_standard_header,
};
use crate::error::ErrorKind;
use crate::net::constants::{
    ACKED_PACKET_HEADER, ARRANGING_PACKET_HEADER, FRAGMENT_HEADER_SIZE, STANDARD_HEADER_SIZE,
};

verus! {

/// Reads the headers and the payload of a received packet, front to back.
pub struct PacketReader<'s> {
    buffer: &'s [u8],
    position: usize,
}

impl<'s> PacketReader<'s> {
    /// The bytes being read.
    pub closed spec fn data(&self) -> Seq<u8> {
        self.buffer@
    }

    /// Where the next read starts.
    pub closed spec fn position(&self) -> int {
        self.position as int
    }

    /// The number of bytes left to read.
    pub open spec fn remaining(&self) -> int {
        self.data().len() - self.position()
    }

    /// The invariant of a reader: it never stands past the end of its data.
    pub closed spec fn wf(&self) -> bool {
        self.position <= self.buffer@.len()
    }

    /// Starts reading `buffer` from its first byte.
    pub fn new(buffer: &'s [u8]) -> (reader: PacketReader<'s>)
        ensures
            reader.wf(),
            reader.data() == buffer@,
            reader.position() == 0,
    {
        PacketReader { buffer, position: 0 }
    }

    /// Whether `length` more bytes can be read.
    fn can_read(&self, length: u8) -> (b: bool)
        requires
            self.wf(),
        ensures
            b == (self.remaining() >= length),
            self.data().len() <= usize::MAX,
    {
        self.buffer.len() - self.position >= length as usize
    }

    /// Reads the standard header.
    pub fn read_standard_header(&mut self) -> (header: Result<StandardHeader, ErrorKind>)
        requires
            old(self).wf(),
        ensures
            final(self).wf(),
            final(self).data() == old(self).data(),
            old(self).remaining() < 5 ==> header == Err::<StandardHeader, ErrorKind>(
                ErrorKind::CouldNotReadHeader,
            ) && final(self).position() == old(self).position(),
            old(self).remaining() >= 5 ==> final(self).position() == old(self).position() + 5
                && match decode_standard_header(old(self).data(), old(self).position()) {
                Ok(f) => header matches Ok(h) && h.fields() == f,
                Err(e) => header == Err::<StandardHeader, ErrorKind>(e),
            },
    {
        if self.can_read(STANDARD_HEADER_SIZE) {
            let header = StandardHeader::read(self.buffer, self.position);
            self.position = self.position + 5;
            header
        } else {
            Err(ErrorKind::CouldNotReadHeader)
        }
    }

    /// Reads the acknowledgement header.
    pub fn read_acknowledge_header(&mut self) -> (header: Result<AckedPacketHeader, ErrorKind>)
        requires
            old(self).wf(),
        ensures
            final(self).wf(),
            final(self).data() == old(self).data(),
            old(self).remaining() < 8 ==> header == Err::<AckedPacketHeader, ErrorKind>(
                ErrorKind::CouldNotReadHeader,
            ) && final(self).position() == old(self).position(),
            old(self).remaining() >= 8 ==> final(self).position() == old(self).position() + 8
                && (header matches Ok(h) && h.fields() == decode_acked_header(
                old(self).data(),
                old(self).position(),
            )),
    {
        if self.can_read(ACKED_PACKET_HEADER) {
            let header = AckedPacketHeader::read(self.buffer, self.position);
            self.position = self.position + 8;
            Ok(header)
        } else {
            Err(ErrorKind::CouldNotReadHeader)
        }
    }

    /// Reads the arranging header that starts at `start_offset`.
    pub fn read_arranging_header(&mut self, start_offset: u16) -> (header: Result<
        ArrangingHeader,
        ErrorKind,
    >)
        requires
            old(self).wf(),
            start_offset <= old(self).data().len(),
        ensures
            final(self).wf(),
            final(self).data() == old(self).data(),
            old(self).data().len() < start_offset + 3 ==> header == Err::<ArrangingHeader, ErrorKind>(
                ErrorKind::CouldNotReadHeader,
            ) && final(self).position() == start_offset,
            old(self).data().len() >= start_offset + 3 ==> final(self).position() == start_offset + 3
                && (header matches Ok(h) && h.fields() == decode_arranging_header(
                old(self).data(),
                start_offset as int,
            )),
    {
        self.position = start_offset as usize;
        if self.can_read(ARRANGING_PACKET_HEADER) {
            let header = ArrangingHeader::read(self.buffer, self.position);
            self.position = self.position + 3;
            Ok(header)
        } else {
            Err(ErrorKind::CouldNotReadHeader)
        }
    }

    /// Reads the fragment header and, for the first fragment of a packet, the acknowledgement
    /// header that follows it.
    pub fn read_fragment(&mut self) -> (headers: Result<
        (FragmentHeader, Option<AckedPacketHeader>),
        ErrorKind,
    >)
        requires
            old(self).wf(),
        ensures
            final(self).wf(),
            final(self).data() == old(self).data(),
            old(self).remaining() < 4 ==> headers == Err::<
                (FragmentHeader, Option<AckedPacketHeader>),
                ErrorKind,
            >(ErrorKind::CouldNotReadHeader) && final(self).position() == old(self).position(),
            old(self).remaining() >= 4 ==> {
                let f = decode_fragment_header(old(self).data(), old(self).position());
                if f.1 != 0 {
                    &&& final(self).position() == old(self).position() + 4
                    &&& headers matches Ok((h, a)) && h.fields() == f && a is None
                } else if old(self).remaining() >= 12 {
                    &&& final(self).position() == old(self).position() + 12
                    &&& headers matches Ok((h, Some(a))) && h.fields() == f && a.fields()
                        == decode_acked_header(old(self).data(), old(self).position() + 4)
                } else {
                    &&& final(self).position() == old(self).position() + 4
                    &&& headers == Err::<(FragmentHeader, Option<AckedPacketHeader>), ErrorKind>(
                        ErrorKind::IOError,
                    )
                }
            },
    {
        if self.can_read(FRAGMENT_HEADER_SIZE) {
            let fragment_header = FragmentHeader::read(self.buffer, self.position);
            self.position = self.position + 4;
            let acked_header = if fragment_header.id() == 0 {
                if self.can_read(ACKED_PACKET_HEADER) {
                    let acked = AckedPacketHeader::read(self.buffer, self.position);
                    self.position = self.position + 8;
                    Some(acked)
                } else {
                    return Err(ErrorKind::IOError);
                }
            } else {
                None
            };
            Ok((fragment_header, acked_header))
        } else {
            Err(ErrorKind::CouldNotReadHeader)
        }
    }

    /// Returns the bytes that follow the headers read so far.
    pub fn read_payload(&self) -> (payload: Vec<u8>)
        requires
            self.wf(),
        ensures
            payload@ == self.data().subrange(self.position(), self.data().len() as int),
    {
        vstd::slice::slice_to_vec(vstd::slice::slice_subrange(self.buffer, self.position, self.buffer.len()))
    }
}

} // verus!
