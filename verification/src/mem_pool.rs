//! A fixed-capacity pool of reusable VM memory regions.
use vstd::prelude::*;
use solana_sbpf::aligned_memory::AlignedMemory;
use solana_sbpf::ebpf::HOST_ALIGN;
use solana_sbpf::vm::CallFrame;
use crate::execution_budget::{
    MAX_CALL_DEPTH, MAX_HEAP_FRAME_BYTES, MAX_INSTRUCTION_STACK_DEPTH_SIMD_0268,
    MIN_HEAP_FRAME_BYTES,
};
use crate::vm_memory::{
    clone_call_frame, default_call_frame, default_frame_words, frame_words, memory_bytes, memory_bytes_mut, memory_len, stack_frame_size,
    zero_filled_memory, zero_prefix, zeros,
};

verus! {

/// A value that can be scrubbed before it is handed out again.
pub trait Reset: Sized {
    /// What `reset(len)` turns `self` into: `after` is a possible result.
    spec fn reset_spec(&self, len: usize, after: &Self) -> bool;

    /// Scrubs the value; `len` bounds the part of it that may have been used.
    fn reset(&mut self, len: usize)
        ensures
            old(self).reset_spec(len, final(self)),
    ;
}

/// Wraps each item in `Some` (`<[T; N]>::map`).
#[verifier::external_body]
fn wrap_each<T, const N: usize>(items: [T; N]) -> (wrapped: [Option<T>; N])
    ensures
        forall|i: int| 0 <= i < N ==> #[trigger] wrapped@[i] == Some(items@[i]),
{
    items.map(Some)
}

/// A stack of at most `SIZE` reusable values. The values below `next_empty`
/// are present; the slots from `next_empty` on are empty.
pub struct Pool<T: Reset, const SIZE: usize> {
    items: [Option<T>; SIZE],
    next_empty: usize,
}

impl<T: Reset, const SIZE: usize> View for Pool<T, SIZE> {
    type V = Seq<T>;

    /// The pooled values, the one that `get` hands out next last.
    closed spec fn view(&self) -> Seq<T> {
        Seq::new(self.next_empty as nat, |i: int| self.items@[i]->0)
    }
}

impl<T: Reset, const SIZE: usize> Pool<T, SIZE> {
    /// The pool's representation is consistent: `next_empty` is within the
    /// capacity and every slot below it holds a value.
    #[verifier::type_invariant]
    spec fn inv(self) -> bool {
        &&& self.next_empty <= SIZE
        &&& forall|i: int| 0 <= i < self.next_empty ==> #[trigger] self.items@[i] is Some
    }

    /// A full pool holding `items`, in order (the last one is handed out first).
    pub fn new(items: [T; SIZE]) -> (pool: Self)
        ensures
            pool@ == items@,
            pool@.len() <= SIZE,
    {
        broadcast use vstd::array::group_array_axioms;

        let pool = Self { items: wrap_each(items), next_empty: SIZE };
        assert(pool@ =~= items@);
        pool
    }

    /// The capacity of the pool.
    pub fn len(&self) -> (n: usize)
        ensures
            n == SIZE,
    {
        SIZE
    }

    /// Takes the most recently pooled value, or `None` when the pool is empty.
    pub fn get(&mut self) -> (value: Option<T>)
        ensures
            final(self)@.len() <= SIZE,
            old(self)@.len() == 0 ==> value is None && final(self)@ == old(self)@,
            old(self)@.len() > 0 ==> value == Some(old(self)@.last()) && final(self)@
                == old(self)@.drop_last(),
    {
        proof {
            use_type_invariant(&*self);
        }
        if self.next_empty == 0 {
            return None;
        }
        self.next_empty = self.next_empty - 1;
        let i = self.next_empty;
        let mut value: Option<T> = None;
        core::mem::swap(&mut self.items[i], &mut value);
        assert(self@ =~= old(self)@.drop_last());
        value
    }

    /// Resets `value` with `len` and pools it; returns `false`, dropping
    /// `value` unreset, when the pool is full.
    pub fn put(&mut self, value: T, len: usize) -> (pooled: bool)
        ensures
            final(self)@.len() <= SIZE,
            pooled == (old(self)@.len() < SIZE),
            pooled ==> final(self)@.len() == old(self)@.len() + 1 && final(self)@.drop_last()
                == old(self)@ && value.reset_spec(len, &final(self)@.last()),
            !pooled ==> final(self)@ == old(self)@,
    {
        proof {
            use_type_invariant(&*self);
        }
        if self.next_empty >= SIZE {
            return false;
        }
        let mut value = value;
        value.reset(len);
        let i = self.next_empty;
        self.items[i] = Some(value);
        self.next_empty = self.next_empty + 1;
        assert(self@.drop_last() =~= old(self)@);
        true
    }
}


impl Reset for AlignedMemory<HOST_ALIGN> {
    /// The first `len` bytes (all of them, if there are fewer) become zero;
    /// the rest and the length stay.
    open spec fn reset_spec(&self, len: usize, after: &Self) -> bool {
        memory_bytes(*after) == zero_prefix(memory_bytes(*self), len as int)
    }

    fn reset(&mut self, len: usize) {
        let slice = memory_bytes_mut(self);
        let head = len.min(slice.len());
        let mut i: usize = 0;
        while i < head
            invariant
                head <= slice@.len(),
                head == len || head == slice@.len(),
                head <= len,
                i <= head,
                slice@.len() == memory_bytes(*old(self)).len(),
                forall|j: int|
                    0 <= j < slice@.len() ==> #[trigger] slice@[j] == if j < i {
                        0u8
                    } else {
                        memory_bytes(*old(self))[j]
                    },
            decreases head - i,
        {
            slice[i] = 0;
            i = i + 1;
        }
        assert(slice@ =~= zero_prefix(memory_bytes(*old(self)), len as int));
    }
}


/// `std::array::from_fn`: the array whose element `i` is `f(i)`, the calls made
/// in order of `i`.
#[verifier::external_body]
fn array_from_fn<T, const N: usize, F: Fn(usize) -> T>(f: F) -> (items: [T; N])
    requires
        forall|i: usize| 0 <= i < N ==> #[trigger] f.requires((i,)),
    ensures
        forall|i: usize| 0 <= i < N ==> #[trigger] f.ensures((i,), items@[i as int]),
{
    std::array::from_fn(f)
}

/// The call frames of one program invocation.
pub struct CallFrameBuffer(Box<[CallFrame; MAX_CALL_DEPTH]>);

impl View for CallFrameBuffer {
    type V = Seq<CallFrame>;

    closed spec fn view(&self) -> Seq<CallFrame> {
        self.0@
    }
}

impl CallFrameBuffer {
    /// Every frame is the default frame: all its words are zero.
    pub open spec fn all_default(frames: Seq<CallFrame>) -> bool {
        forall|i: int| 0 <= i < frames.len() ==> #[trigger] frame_words(frames[i]) == default_frame_words()
    }

    /// A buffer holds exactly `MAX_CALL_DEPTH` frames.
    pub proof fn lemma_len(&self)
        ensures
            self@.len() == MAX_CALL_DEPTH,
    {
        broadcast use vstd::array::group_array_axioms;
    }
}

impl Default for CallFrameBuffer {
    /// A buffer of `MAX_CALL_DEPTH` copies of the default frame.
    fn default() -> (buffer: Self)
        ensures
            buffer@.len() == MAX_CALL_DEPTH,
            Self::all_default(buffer@),
    {
        broadcast use vstd::array::group_array_axioms;

        let frame = default_call_frame();
        let source = &frame;
        let copy_frame = |_i: usize| -> (copy: CallFrame)
            ensures
                copy == *source,
            { clone_call_frame(source) };
        let frames = array_from_fn(copy_frame);
        assert forall|i: int| 0 <= i < MAX_CALL_DEPTH implies #[trigger] frames@[i] == frame by {
            assert(copy_frame.ensures((i as usize,), frames@[i]));
        }
        CallFrameBuffer(Box::new(frames))
    }
}

impl Reset for CallFrameBuffer {
    /// The number of frames stays, and every frame becomes the default frame.
    open spec fn reset_spec(&self, len: usize, after: &Self) -> bool {
        &&& after@.len() == self@.len()
        &&& Self::all_default(after@)
    }

    /// Fills the buffer with copies of the default frame.
    fn reset(&mut self, _len: usize) {
        broadcast use vstd::array::group_array_axioms;

        let frame = default_call_frame();
        let mut i: usize = 0;
        while i < MAX_CALL_DEPTH
            invariant
                i <= MAX_CALL_DEPTH,
                forall|j: int| 0 <= j < i ==> #[trigger] self.0@[j] == frame,
            decreases MAX_CALL_DEPTH - i,
        {
            self.0[i] = clone_call_frame(&frame);
            i = i + 1;
        }
    }
}

impl core::ops::Deref for CallFrameBuffer {
    type Target = [CallFrame];

    fn deref(&self) -> (frames: &[CallFrame])
        ensures
            frames@ == self@,
    {
        self.0.as_slice()
    }
}

impl core::ops::DerefMut for CallFrameBuffer {
    fn deref_mut(&mut self) -> (frames: &mut [CallFrame])
        ensures
            frames@ == old(self)@,
            final(self)@ == final(frames)@,
    {
        let array = &mut *self.0;
        let frames: &mut [CallFrame] = array;
        frames
    }
}

/// The size of a VM stack region: one stack frame (4096 bytes, see
/// `stack_frame_size`) per call level.
pub open spec fn stack_region_len() -> int {
    4096 * MAX_CALL_DEPTH
}

/// Pools of VM stack, heap and call-frame regions, one of each per level of
/// nested program invocation, so that regions are reused instead of allocated.
pub struct VmMemoryPool {
    stack: Pool<AlignedMemory<HOST_ALIGN>, MAX_INSTRUCTION_STACK_DEPTH_SIMD_0268>,
    heap: Pool<AlignedMemory<HOST_ALIGN>, MAX_INSTRUCTION_STACK_DEPTH_SIMD_0268>,
    call_frame: Pool<CallFrameBuffer, MAX_INSTRUCTION_STACK_DEPTH_SIMD_0268>,
}

impl VmMemoryPool {
    /// The bytes of the pooled stack regions, the next one handed out last.
    pub closed spec fn stacks(&self) -> Seq<Seq<u8>> {
        self.stack@.map_values(|m: AlignedMemory<HOST_ALIGN>| memory_bytes(m))
    }

    /// The bytes of the pooled heap regions, the next one handed out last.
    pub closed spec fn heaps(&self) -> Seq<Seq<u8>> {
        self.heap@.map_values(|m: AlignedMemory<HOST_ALIGN>| memory_bytes(m))
    }

    /// The pooled call-frame buffers, the next one handed out last.
    pub closed spec fn call_frames(&self) -> Seq<CallFrameBuffer> {
        self.call_frame@
    }

    /// Full pools: zeroed stacks of `stack_region_len()` bytes, zeroed heaps of
    /// `MAX_HEAP_FRAME_BYTES` bytes, and buffers of `MAX_CALL_DEPTH` frames.
    pub fn new() -> (pool: Self)
        ensures
            pool.stacks() == Seq::new(
                MAX_INSTRUCTION_STACK_DEPTH_SIMD_0268 as nat,
                |i: int| zeros(stack_region_len() as nat),
            ),
            pool.heaps() == Seq::new(
                MAX_INSTRUCTION_STACK_DEPTH_SIMD_0268 as nat,
                |i: int| zeros(MAX_HEAP_FRAME_BYTES as nat),
            ),
            pool.call_frames().len() == MAX_INSTRUCTION_STACK_DEPTH_SIMD_0268,
            forall|i: int|
                0 <= i < MAX_INSTRUCTION_STACK_DEPTH_SIMD_0268 ==> (#[trigger] pool.call_frames()[i])@.len()
                    == MAX_CALL_DEPTH && CallFrameBuffer::all_default(pool.call_frames()[i]@),
    {
        let stack_len = stack_frame_size() * MAX_CALL_DEPTH;
        let new_stack = |_i: usize| -> (m: AlignedMemory<HOST_ALIGN>)
            ensures
                memory_bytes(m) == zeros(stack_len as nat),
            { zero_filled_memory(stack_len) };
        let stacks = array_from_fn(new_stack);
        let heap_len = MAX_HEAP_FRAME_BYTES as usize;
        let new_heap = |_i: usize| -> (m: AlignedMemory<HOST_ALIGN>)
            ensures
                memory_bytes(m) == zeros(heap_len as nat),
            { zero_filled_memory(heap_len) };
        let heaps = array_from_fn(new_heap);
        let new_frames = |_i: usize| -> (b: CallFrameBuffer)
            ensures
                b@.len() == MAX_CALL_DEPTH,
                CallFrameBuffer::all_default(b@),
            { CallFrameBuffer::default() };
        let frames = array_from_fn(new_frames);
        assert forall|i: int| 0 <= i < MAX_INSTRUCTION_STACK_DEPTH_SIMD_0268 implies memory_bytes(
            #[trigger] stacks@[i],
        ) == zeros(stack_region_len() as nat) by {
            assert(new_stack.ensures((i as usize,), stacks@[i]));
        }
        assert forall|i: int| 0 <= i < MAX_INSTRUCTION_STACK_DEPTH_SIMD_0268 implies memory_bytes(
            #[trigger] heaps@[i],
        ) == zeros(MAX_HEAP_FRAME_BYTES as nat) by {
            assert(new_heap.ensures((i as usize,), heaps@[i]));
        }
        assert forall|i: int| 0 <= i < MAX_INSTRUCTION_STACK_DEPTH_SIMD_0268 implies (
        #[trigger] frames@[i])@.len() == MAX_CALL_DEPTH && CallFrameBuffer::all_default(frames@[i]@) by {
            assert(new_frames.ensures((i as usize,), frames@[i]));
        }
        let pool = Self {
            stack: Pool::new(stacks),
            heap: Pool::new(heaps),
            call_frame: Pool::new(frames),
        };
        assert(pool.stacks() =~= Seq::new(
            MAX_INSTRUCTION_STACK_DEPTH_SIMD_0268 as nat,
            |i: int| zeros(stack_region_len() as nat),
        ));
        assert(pool.heaps() =~= Seq::new(
            MAX_INSTRUCTION_STACK_DEPTH_SIMD_0268 as nat,
            |i: int| zeros(MAX_HEAP_FRAME_BYTES as nat),
        ));
        assert(pool.call_frames() == frames@);
        pool
    }

    /// The capacity of the stack pool.
    pub fn stack_len(&self) -> (n: usize)
        ensures
            n == MAX_INSTRUCTION_STACK_DEPTH_SIMD_0268,
    {
        self.stack.len()
    }

    /// The capacity of the heap pool.
    pub fn heap_len(&self) -> (n: usize)
        ensures
            n == MAX_INSTRUCTION_STACK_DEPTH_SIMD_0268,
    {
        self.heap.len()
    }

    /// Hands out the most recently pooled stack region, or a new zeroed one of
    /// `size` bytes when none is pooled. `size` is the stack region size.
    pub fn get_stack(&mut self, size: usize) -> (stack: AlignedMemory<HOST_ALIGN>)
        requires
            size == stack_region_len(),
        ensures
            final(self).heaps() == old(self).heaps(),
            final(self).call_frames() == old(self).call_frames(),
            old(self).stacks().len() == 0 ==> memory_bytes(stack) == zeros(size as nat)
                && final(self).stacks() == old(self).stacks(),
            old(self).stacks().len() > 0 ==> memory_bytes(stack) == old(self).stacks().last()
                && final(self).stacks() == old(self).stacks().drop_last(),
    {
        let pooled = self.stack.get();
        let new_stack = || -> (m: AlignedMemory<HOST_ALIGN>)
            ensures
                memory_bytes(m) == zeros(size as nat),
            { zero_filled_memory(size) };
        let stack = pooled.unwrap_or_else(new_stack);
        assert(self.stacks() =~= old(self).stacks().drop_last() || old(self).stacks().len() == 0);
        stack
    }

    /// Pools `stack` after zeroing all of it; returns `false` when the pool is full.
    pub fn put_stack(&mut self, stack: AlignedMemory<HOST_ALIGN>) -> (pooled: bool)
        ensures
            final(self).heaps() == old(self).heaps(),
            final(self).call_frames() == old(self).call_frames(),
            pooled == (old(self).stacks().len() < MAX_INSTRUCTION_STACK_DEPTH_SIMD_0268),
            pooled ==> final(self).stacks() == old(self).stacks().push(
                zeros(memory_bytes(stack).len()),
            ),
            !pooled ==> final(self).stacks() == old(self).stacks(),
    {
        let len = memory_len(&stack);
        let pooled = self.stack.put(stack, len);
        if pooled {
            assert(self.stack@ =~= old(self).stack@.push(self.stack@.last()));
            assert(zero_prefix(memory_bytes(stack), len as int) =~= zeros(memory_bytes(stack).len()));
            assert(self.stacks() =~= old(self).stacks().push(zeros(memory_bytes(stack).len())));
        }
        pooled
    }

    /// Hands out the most recently pooled heap region, or a new zeroed one of
    /// `MAX_HEAP_FRAME_BYTES` bytes when none is pooled. `heap_size`, the size
    /// the program asked for, must be a valid heap size.
    pub fn get_heap(&mut self, heap_size: u32) -> (heap: AlignedMemory<HOST_ALIGN>)
        requires
            MIN_HEAP_FRAME_BYTES <= heap_size <= MAX_HEAP_FRAME_BYTES,
        ensures
            final(self).stacks() == old(self).stacks(),
            final(self).call_frames() == old(self).call_frames(),
            old(self).heaps().len() == 0 ==> memory_bytes(heap) == zeros(
                MAX_HEAP_FRAME_BYTES as nat,
            ) && final(self).heaps() == old(self).heaps(),
            old(self).heaps().len() > 0 ==> memory_bytes(heap) == old(self).heaps().last()
                && final(self).heaps() == old(self).heaps().drop_last(),
    {
        let pooled = self.heap.get();
        let new_heap = || -> (m: AlignedMemory<HOST_ALIGN>)
            ensures
                memory_bytes(m) == zeros(MAX_HEAP_FRAME_BYTES as nat),
            { zero_filled_memory(MAX_HEAP_FRAME_BYTES as usize) };
        let heap = pooled.unwrap_or_else(new_heap);
        assert(self.heaps() =~= old(self).heaps().drop_last() || old(self).heaps().len() == 0);
        heap
    }

    /// Pools `heap` after zeroing its first `mapped_len` bytes, the part the
    /// program could reach; returns `false` when the pool is full.
    pub fn put_heap(&mut self, heap: AlignedMemory<HOST_ALIGN>, mapped_len: usize) -> (pooled: bool)
        requires
            MIN_HEAP_FRAME_BYTES <= memory_bytes(heap).len() <= MAX_HEAP_FRAME_BYTES,
            mapped_len <= memory_bytes(heap).len(),
        ensures
            final(self).stacks() == old(self).stacks(),
            final(self).call_frames() == old(self).call_frames(),
            pooled == (old(self).heaps().len() < MAX_INSTRUCTION_STACK_DEPTH_SIMD_0268),
            pooled ==> final(self).heaps() == old(self).heaps().push(
                zero_prefix(memory_bytes(heap), mapped_len as int),
            ),
            !pooled ==> final(self).heaps() == old(self).heaps(),
    {
        let heap_size = memory_len(&heap);
        let pooled = self.heap.put(heap, mapped_len.min(heap_size));
        if pooled {
            assert(self.heap@ =~= old(self).heap@.push(self.heap@.last()));
            assert(self.heaps() =~= old(self).heaps().push(
                zero_prefix(memory_bytes(heap), mapped_len as int),
            ));
        }
        pooled
    }

    /// Hands out the most recently pooled call-frame buffer, or a new one of
    /// `MAX_CALL_DEPTH` default frames when none is pooled.
    pub fn get_call_frames(&mut self) -> (frames: CallFrameBuffer)
        ensures
            final(self).stacks() == old(self).stacks(),
            final(self).heaps() == old(self).heaps(),
            old(self).call_frames().len() == 0 ==> frames@.len() == MAX_CALL_DEPTH
                && CallFrameBuffer::all_default(frames@) && final(self).call_frames() == old(
                self,
            ).call_frames(),
            old(self).call_frames().len() > 0 ==> frames == old(self).call_frames().last()
                && final(self).call_frames() == old(self).call_frames().drop_last(),
    {
        self.call_frame.get().unwrap_or_default()
    }

    /// Pools `call_frame` after resetting every frame to the default one;
    /// returns `false` when the pool is full.
    pub fn put_call_frames(&mut self, call_frame: CallFrameBuffer) -> (pooled: bool)
        ensures
            final(self).stacks() == old(self).stacks(),
            final(self).heaps() == old(self).heaps(),
            pooled == (old(self).call_frames().len() < MAX_INSTRUCTION_STACK_DEPTH_SIMD_0268),
            pooled ==> final(self).call_frames().len() == old(self).call_frames().len() + 1
                && final(self).call_frames().drop_last() == old(self).call_frames()
                && final(self).call_frames().last()@.len() == call_frame@.len()
                && CallFrameBuffer::all_default(final(self).call_frames().last()@),
            !pooled ==> final(self).call_frames() == old(self).call_frames(),
    {
        self.call_frame.put(call_frame, 0)
    }
}


/// Law: a value that `put` pools is the one the following `get` hands out,
/// reset, and the pool is then as it was before the `put`.
pub proof fn lemma_put_then_get<T: Reset>(
    before: Seq<T>,
    value: T,
    len: usize,
    after_put: Seq<T>,
    got: Option<T>,
    after_get: Seq<T>,
)
    requires
        after_put.len() == before.len() + 1,
        after_put.drop_last() == before,
        value.reset_spec(len, &after_put.last()),
        after_put.len() == 0 ==> got is None && after_get == after_put,
        after_put.len() > 0 ==> got == Some(after_put.last()) && after_get == after_put.drop_last(),
    ensures
        got is Some,
        value.reset_spec(len, &got->0),
        after_get == before,
{
}

/// Law: a stack region that `put_stack` pools is the one the next
/// `get_stack` hands out, all of its bytes zero and its length kept, and the
/// pool is then as it was before.
pub proof fn lemma_put_stack_then_get_stack(
    before: Seq<Seq<u8>>,
    stack: Seq<u8>,
    after_put: Seq<Seq<u8>>,
    got: Seq<u8>,
    after_get: Seq<Seq<u8>>,
)
    requires
        after_put == before.push(zeros(stack.len())),
        after_put.len() > 0 ==> got == after_put.last() && after_get == after_put.drop_last(),
    ensures
        got == zeros(stack.len()),
        got.len() == stack.len(),
        after_get == before,
{
    assert(after_put.drop_last() =~= before);
}

/// Law: a heap region that the program wrote only below `mapped_len` is pooled
/// entirely zeroed.
pub proof fn lemma_heap_scrubbed(heap: Seq<u8>, mapped_len: usize)
    requires
        forall|i: int| mapped_len <= i < heap.len() ==> heap[i] == 0u8,
    ensures
        zero_prefix(heap, mapped_len as int) == zeros(heap.len()),
{
    assert(zero_prefix(heap, mapped_len as int) =~= zeros(heap.len()));
}

/// Law: when all pooled heaps are zero, they stay so after `put_heap` of a
/// heap that was written only below its mapped length; so every heap that
/// `get_heap` hands out is zero.
pub proof fn lemma_heap_pool_stays_zeroed(
    before: Seq<Seq<u8>>,
    heap: Seq<u8>,
    mapped_len: usize,
    after: Seq<Seq<u8>>,
)
    requires
        forall|k: int| 0 <= k < before.len() ==> #[trigger] before[k] == zeros(before[k].len()),
        forall|i: int| mapped_len <= i < heap.len() ==> heap[i] == 0u8,
        after == before.push(zero_prefix(heap, mapped_len as int)) || after == before,
    ensures
        forall|k: int| 0 <= k < after.len() ==> #[trigger] after[k] == zeros(after[k].len()),
{
    lemma_heap_scrubbed(heap, mapped_len);
    assert forall|k: int| 0 <= k < after.len() implies #[trigger] after[k] == zeros(after[k].len()) by {
        if k < before.len() {
            assert(after[k] == before[k]);
        }
    }
}

} // verus!
