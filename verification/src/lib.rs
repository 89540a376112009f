//! Packet I/O core for a traffic-inspection engine: the packet model, the
//! verdict vocabulary, the decisions a packet source takes while it delivers
//! packets to its consumer, and the tuning values that size a source.

pub mod config;
pub mod document;
pub mod laws;
pub mod number;
pub mod packet;
pub mod replay;
pub mod source;
pub mod verdict;
