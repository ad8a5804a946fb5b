//! The VM memory types of `solana_sbpf` as the memory pool sees them.
use vstd::prelude::*;
use solana_sbpf::aligned_memory::AlignedMemory;
use solana_sbpf::ebpf::HOST_ALIGN;
use solana_sbpf::vm::CallFrame;

verus! {

#[verifier::external_type_specification]
#[verifier::external_body]
pub struct ExAlignedMemory<const ALIGN: usize>(AlignedMemory<ALIGN>);

#[verifier::external_type_specification]
#[verifier::external_body]
pub struct ExCallFrame(CallFrame);

/// The bytes that an `AlignedMemory` holds (its initialized length, not its capacity).
pub uninterp spec fn memory_bytes(m: AlignedMemory<HOST_ALIGN>) -> Seq<u8>;

/// `bytes` with every byte below index `len` set to zero.
pub open spec fn zero_prefix(bytes: Seq<u8>, len: int) -> Seq<u8> {
    Seq::new(bytes.len(), |i: int| if i < len { 0u8 } else { bytes[i] })
}

/// `len` zero bytes.
pub open spec fn zeros(len: nat) -> Seq<u8> {
    Seq::new(len, |i: int| 0u8)
}

/// The largest length for which `AlignedMemory::zero_filled` builds a valid layout:
/// the greatest multiple of the host alignment (16) that does not exceed `isize::MAX`.
pub open spec fn max_memory_len() -> int {
    isize::MAX - 15
}

/// `AlignedMemory::zero_filled`: allocates `len` zeroed bytes at the host alignment
/// and sets the length to `len`. It panics when `len`, rounded up to the
/// alignment, exceeds `isize::MAX` (the layout is invalid), which `requires` rules out.
#[verifier::external_body]
pub fn zero_filled_memory(len: usize) -> (m: AlignedMemory<HOST_ALIGN>)
    requires
        len <= max_memory_len(),
    ensures
        memory_bytes(m) == zeros(len as nat),
{
    AlignedMemory::zero_filled(len)
}

/// `AlignedMemory::len`: the number of initialized bytes.
#[verifier::external_body]
pub fn memory_len(m: &AlignedMemory<HOST_ALIGN>) -> (n: usize)
    ensures
        n == memory_bytes(*m).len(),
{
    m.len()
}

/// `AlignedMemory::as_slice_mut`: a mutable view of the initialized bytes;
/// what is written through it is what the memory holds afterwards.
#[verifier::external_body]
pub fn memory_bytes_mut(m: &mut AlignedMemory<HOST_ALIGN>) -> (s: &mut [u8])
    ensures
        s@ == memory_bytes(*old(m)),
        memory_bytes(*final(m)) == final(s)@,
{
    m.as_slice_mut()
}

/// The words a `CallFrame` holds: its four caller-saved registers, then its
/// frame pointer, then its target pc.
pub uninterp spec fn frame_words(frame: CallFrame) -> Seq<u64>;

/// The words of the default frame: six zeros.
pub open spec fn default_frame_words() -> Seq<u64> {
    Seq::new(6, |i: int| 0u64)
}

/// `CallFrame::default()` (derived over integer fields): every word is zero.
#[verifier::external_body]
pub fn default_call_frame() -> (frame: CallFrame)
    ensures
        frame_words(frame) == default_frame_words(),
{
    CallFrame::default()
}

/// `<CallFrame as Clone>::clone` (derived over plain integer fields): an
/// identical frame.
#[verifier::external_body]
pub fn clone_call_frame(frame: &CallFrame) -> (copy: CallFrame)
    ensures
        copy == *frame,
{
    frame.clone()
}

/// `solana_sbpf::vm::get_stack_frame_size`. Built without the
/// `conf-stack-frame-size` feature, as this crate builds it, it is a `const fn`
/// returning the default frame size of 4096 bytes.
#[verifier::external_body]
pub fn stack_frame_size() -> (n: usize)
    ensures
        n == 4096,
{
    solana_sbpf::vm::get_stack_frame_size()
}

} // verus!
