use vstd::prelude::*;

verus! {

/// Depth of nested program invocations that the VM memory pool is sized for.
pub const MAX_INSTRUCTION_STACK_DEPTH_SIMD_0268: usize = 9;

/// Maximum depth of nested calls inside one program invocation.
pub const MAX_CALL_DEPTH: usize = 64;

/// The smallest heap a program may request, in bytes.
pub const MIN_HEAP_FRAME_BYTES: u32 = 32768;

/// The largest heap a program may request, in bytes.
pub const MAX_HEAP_FRAME_BYTES: u32 = 262144;

} // verus!
