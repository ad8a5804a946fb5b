//! The DMA buffers and errors of `warp_devices` as the accelerator host code sees them.
use vstd::prelude::*;
use warp_devices::xdma::{DmaBuffer, Error as XdmaError};

verus! {

#[verifier::external_type_specification]
#[verifier::external_body]
pub struct ExDmaBuffer(DmaBuffer);

#[verifier::external_type_specification]
#[verifier::external_body]
pub struct ExXdmaError(XdmaError);

/// The bytes that a `DmaBuffer` holds (its length, not its aligned capacity).
pub uninterp spec fn dma_bytes(buf: DmaBuffer) -> Seq<u8>;

/// The room a `DmaBuffer` was made with: the capacity of its aligned
/// allocation, which appends within it keep (the buffer must not reallocate,
/// as a new allocation would lose the alignment).
pub uninterp spec fn dma_room(buf: DmaBuffer) -> nat;

/// The largest size for which `DmaBuffer::new` can reserve its aligned capacity:
/// it reserves `n_bytes / 4096 + 1` pages of 4096 bytes, which must not exceed
/// `isize::MAX` bytes.
pub open spec fn max_dma_len() -> int {
    isize::MAX - 4096
}

/// `DmaBuffer::new`: an empty buffer with page-aligned capacity for at least
/// `n_bytes` (`n_bytes / 4096 + 1` pages).
#[verifier::external_body]
pub fn dma_buffer_new(n_bytes: usize) -> (buf: DmaBuffer)
    requires
        n_bytes <= max_dma_len(),
    ensures
        dma_bytes(buf) == Seq::<u8>::empty(),
        dma_room(buf) >= n_bytes,
{
    DmaBuffer::new(n_bytes)
}

/// `DmaBuffer::get_mut` followed by `Vec::extend_from_slice`: appends `bytes`.
/// Within the buffer's room the vector does not reallocate, so the room stays.
#[verifier::external_body]
pub fn dma_buffer_extend(buf: &mut DmaBuffer, bytes: &[u8])
    requires
        dma_bytes(*old(buf)).len() + bytes@.len() <= dma_room(*old(buf)),
    ensures
        dma_bytes(*final(buf)) == dma_bytes(*old(buf)) + bytes@,
        dma_room(*final(buf)) == dma_room(*old(buf)),
{
    buf.get_mut().extend_from_slice(bytes)
}

/// `DmaBuffer::get`: the bytes the buffer holds.
#[verifier::external_body]
pub fn dma_buffer_bytes(buf: &DmaBuffer) -> (bytes: &Vec<u8>)
    ensures
        bytes@ == dma_bytes(*buf),
{
    buf.get()
}

} // verus!
