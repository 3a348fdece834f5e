//! The machinery behind reliability: acknowledgements, fragmentation and arranging streams.
pub mod acknowledgment;
pub mod arranging;
pub mod fragmentation;
pub mod sequence_buffer;

pub use self::acknowledgment::AcknowledgmentHandler;
pub use self::arranging::{OrderingSystem, SequencingSystem};
pub use self::fragmentation::Fragmentation;
