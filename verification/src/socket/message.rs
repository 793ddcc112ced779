//! The events that connection workers send to the server's dispatcher, and the
//! identifiers that tell connections apart.
use vstd::prelude::*;

verus! {

/// The bits of a connection id fixed by its layout (RFC 4122 version-4 UUID):
/// the version nibble and the two variant bits.
pub open spec fn id_layout_mask() -> u128 {
    0x0000_0000_0000_F000_C000_0000_0000_0000u128
}

/// The values of the bits that `id_layout_mask` selects: version 4, variant `10`.
pub open spec fn id_layout_bits() -> u128 {
    0x0000_0000_0000_4000_8000_0000_0000_0000u128
}

/// A connection id has the version-4 layout.
pub open spec fn is_connection_id(id: u128) -> bool {
    id & id_layout_mask() == id_layout_bits()
}

/// Calls `uuid::Uuid::new_v4` and reads the UUID as a `u128` with `Uuid::as_u128`.
/// Trusted: the id is random; all that is claimed is the version-4 layout that
/// `new_v4` writes into it (it masks a random value and sets version and
/// variant bits).
#[verifier::external_body]
fn random_connection_id() -> (id: u128)
    ensures
        is_connection_id(id),
{
    uuid::Uuid::new_v4().as_u128()
}

/// An event for the dispatcher.
#[derive(Debug)]
pub enum Message<S> {
    /// A client connected on stream `S` and got this id.
    CONNECT(S, u128),
    /// The client with this id sent these payload bytes.
    MESSAGE(u128, Vec<u8>),
    /// These bytes go to every connected client.
    BROADCAST(Vec<u8>),
    /// The client with this id is gone.
    DISCONNECT(u128),
}

/// Gives a newly accepted connection a fresh id and the event that announces it.
pub fn announce<S>(stream: S) -> (r: (u128, Message<S>))
    ensures
        is_connection_id(r.0),
        r.1 == Message::CONNECT(stream, r.0),
{
    let id = random_connection_id();
    (id, Message::CONNECT(stream, id))
}

/// What a connection's worker does after trying to read a message: a message
/// read is passed on and the connection stays; a failed read announces that
/// the client is gone and the connection is dropped.
pub fn listen_outcome<S>(id: u128, read: Result<Vec<u8>, ()>) -> (r: (Message<S>, Result<(), ()>))
    ensures
        read matches Ok(bytes) ==> r.0 == Message::<S>::MESSAGE(id, bytes) && r.1 is Ok,
        read is Err ==> r.0 == Message::<S>::DISCONNECT(id) && r.1 is Err,
{
    match read {
        Ok(bytes) => (Message::MESSAGE(id, bytes), Ok(())),
        Err(()) => (Message::DISCONNECT(id), Err(())),
    }
}

} // verus!
