//! The socket side: message framing, connection bookkeeping and the placement
//! of new connections on worker chunks.
pub mod chunk;
pub mod framing;
pub mod message;
pub mod registry;
