use vstd::prelude::*;

verus! {

/// Converts an enum to the byte that stands for it on the wire.
pub trait EnumConverter {
    type Enum;

    fn to_u8(&self) -> u8;
}

/// Enum to specify how a packet should be delivered.
#[derive(Copy, Clone, Debug, PartialEq, Eq, Hash, Structural)]
pub enum DeliveryGuarantee {
    /// Packet may or may not be delivered
    Unreliable,
    /// Packet will be delivered
    Reliable,
}

/// Enum to specify how a packet should be arranged.
#[derive(Copy, Clone, Debug, PartialEq, Eq, Hash, Structural)]
pub enum OrderingGuarantee {
    /// No arranging will be done.
    Unordered,
    /// Packets will be arranged in sequence.
    Sequenced(Option<u8>),
    /// Packets will be arranged in order.
    Ordered(Option<u8>),
}

/// Id to identify a certain packet type.
#[derive(Copy, Clone, Debug, PartialEq, Eq, Hash, Structural)]
pub enum PacketType {
    /// Full packet that is not fragmented
    Packet,
    /// Fragment of a full packet
    Fragment,
    /// Heartbeat packet
    Heartbeat,
}

impl DeliveryGuarantee {
    /// The byte that stands for this guarantee on the wire.
    pub open spec fn code(self) -> u8 {
        match self {
            DeliveryGuarantee::Unreliable => 0,
            DeliveryGuarantee::Reliable => 1,
        }
    }

    /// The guarantee that `byte` stands for, if any.
    pub open spec fn from_code(byte: u8) -> Option<DeliveryGuarantee> {
        if byte == 0 {
            Some(DeliveryGuarantee::Unreliable)
        } else if byte == 1 {
            Some(DeliveryGuarantee::Reliable)
        } else {
            None
        }
    }

    /// Decodes the guarantee that `byte` stands for.
    pub fn try_from_u8(byte: u8) -> (r: Option<DeliveryGuarantee>)
        ensures
            r == DeliveryGuarantee::from_code(byte),
    {
        if byte == 0 {
            Some(DeliveryGuarantee::Unreliable)
        } else if byte == 1 {
            Some(DeliveryGuarantee::Reliable)
        } else {
            None
        }
    }
}

impl EnumConverter for DeliveryGuarantee {
    type Enum = DeliveryGuarantee;

    fn to_u8(&self) -> (r: u8)
        ensures
            r == self.code(),
    {
        match self {
            DeliveryGuarantee::Unreliable => 0,
            DeliveryGuarantee::Reliable => 1,
        }
    }
}

impl OrderingGuarantee {
    /// The byte that stands for this guarantee's kind on the wire.
    pub open spec fn code(self) -> u8 {
        match self {
            OrderingGuarantee::Unordered => 0,
            OrderingGuarantee::Sequenced(_) => 1,
            OrderingGuarantee::Ordered(_) => 2,
        }
    }

    /// This guarantee with its stream left unnamed.
    pub open spec fn unnamed(self) -> OrderingGuarantee {
        match self {
            OrderingGuarantee::Unordered => OrderingGuarantee::Unordered,
            OrderingGuarantee::Sequenced(_) => OrderingGuarantee::Sequenced(None),
            OrderingGuarantee::Ordered(_) => OrderingGuarantee::Ordered(None),
        }
    }

    /// The guarantee that `byte` stands for, if any; streams are left unnamed.
    pub open spec fn from_code(byte: u8) -> Option<OrderingGuarantee> {
        if byte == 0 {
            Some(OrderingGuarantee::Unordered)
        } else if byte == 1 {
            Some(OrderingGuarantee::Sequenced(None))
        } else if byte == 2 {
            Some(OrderingGuarantee::Ordered(None))
        } else {
            None
        }
    }

    /// Decodes the guarantee that `byte` stands for; streams are left unnamed.
    pub fn try_from_u8(byte: u8) -> (r: Option<OrderingGuarantee>)
        ensures
            r == OrderingGuarantee::from_code(byte),
    {
        if byte == 0 {
            Some(OrderingGuarantee::Unordered)
        } else if byte == 1 {
            Some(OrderingGuarantee::Sequenced(None))
        } else if byte == 2 {
            Some(OrderingGuarantee::Ordered(None))
        } else {
            None
        }
    }
}

impl EnumConverter for OrderingGuarantee {
    type Enum = OrderingGuarantee;

    fn to_u8(&self) -> (r: u8)
        ensures
            r == self.code(),
    {
        match self {
            OrderingGuarantee::Unordered => 0,
            OrderingGuarantee::Sequenced(_) => 1,
            OrderingGuarantee::Ordered(_) => 2,
        }
    }
}

impl Default for OrderingGuarantee {
    fn default() -> (r: OrderingGuarantee)
        ensures
            r == OrderingGuarantee::Unordered,
    {
        OrderingGuarantee::Unordered
    }
}

impl Default for DeliveryGuarantee {
    fn default() -> (r: DeliveryGuarantee)
        ensures
            r == DeliveryGuarantee::Unreliable,
    {
        DeliveryGuarantee::Unreliable
    }
}

impl PacketType {
    /// The byte that stands for this packet type on the wire.
    pub open spec fn code(self) -> u8 {
        match self {
            PacketType::Packet => 0,
            PacketType::Fragment => 1,
            PacketType::Heartbeat => 2,
        }
    }

    /// The packet type that `byte` stands for, if any.
    pub open spec fn from_code(byte: u8) -> Option<PacketType> {
        if byte == 0 {
            Some(PacketType::Packet)
        } else if byte == 1 {
            Some(PacketType::Fragment)
        } else if byte == 2 {
            Some(PacketType::Heartbeat)
        } else {
            None
        }
    }

    /// Decodes the packet type that `byte` stands for.
    pub fn try_from_u8(byte: u8) -> (r: Option<PacketType>)
        ensures
            r == PacketType::from_code(byte),
    {
        if byte == 0 {
            Some(PacketType::Packet)
        } else if byte == 1 {
            Some(PacketType::Fragment)
        } else if byte == 2 {
            Some(PacketType::Heartbeat)
        } else {
            None
        }
    }
}

impl View for PacketType {
    type V = PacketType;

    open spec fn view(&self) -> PacketType {
        *self
    }
}

impl EnumConverter for PacketType {
    type Enum = PacketType;

    fn to_u8(&self) -> (r: u8)
        ensures
            r == self.code(),
    {
        match self {
            PacketType::Packet => 0,
            PacketType::Fragment => 1,
            PacketType::Heartbeat => 2,
        }
    }
}

/// Decoding a byte gives back the guarantee or type that was encoded, streams aside.
pub proof fn lemma_codes_round_trip(d: DeliveryGuarantee, o: OrderingGuarantee, t: PacketType)
    ensures
        DeliveryGuarantee::from_code(d.code()) == Some(d),
        OrderingGuarantee::from_code(o.code()) == Some(o.unnamed()),
        PacketType::from_code(t.code()) == Some(t),
{
}

} // verus!
