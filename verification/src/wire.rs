//! Wire framing of the broadcast payload.
//!
//! An accepted transaction and its authoritative cycle cost are encoded
//! once into a single self-describing binary frame, and the same bytes are
//! delivered to every selected peer. The frame is a flatbuffers table with
//! the transaction body in its first field slot and the cost in its
//! second; byte-for-byte reproducibility on equal inputs is what the
//! broadcast relies on, so the frame is named as a function of body and
//! cost alone.

use vstd::prelude::*;

verus! {

/// Upper bound on an encodable transaction body. The flatbuffers format
/// caps a whole buffer at two gigabytes and its builder stops the process
/// when asked to grow past that, so bodies are kept comfortably below the
/// cap, leaving room for the frame's vector length, table, vtable and
/// alignment.
pub const MAX_ENCODABLE_BODY_LEN: usize = 0x7fff_0000;

/// The broadcast frame holding a transaction body and its cycle cost, as
/// the serializer produces it.
pub uninterp spec fn frame_of(body: Seq<u8>, cycles: u64) -> Seq<u8>;

/// Relies on flatbuffers::FlatBufferBuilder — create_vector, start_table,
/// push_slot, end_table, finish_minimal and finished_data — to build a
/// table frame from the body and the cost. The resulting bytes depend on
/// those two arguments alone. The builder refuses to grow past the
/// format's two-gigabyte cap, so bodies near or over it are excluded.
#[verifier::external_body]
pub(crate) fn encode_relay_transaction(tx_body: &Vec<u8>, cycles: u64) -> (frame: Vec<u8>)
    requires
        tx_body@.len() < MAX_ENCODABLE_BODY_LEN,
    ensures
        frame@ == frame_of(tx_body@, cycles),
{
    let mut fbb = flatbuffers::FlatBufferBuilder::new();
    let body = fbb.create_vector(tx_body.as_slice());
    let start = fbb.start_table();
    fbb.push_slot_always(4, body);
    fbb.push_slot::<u64>(6, cycles, 0);
    let root = fbb.end_table(start);
    fbb.finish_minimal(root);
    fbb.finished_data().to_vec()
}

} // verus!
