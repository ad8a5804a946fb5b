use agave_runtime::execution_budget::{
    MAX_CALL_DEPTH, MAX_HEAP_FRAME_BYTES, MAX_INSTRUCTION_STACK_DEPTH_SIMD_0268,
    MIN_HEAP_FRAME_BYTES,
};
use agave_runtime::mem_pool::{Pool, Reset, VmMemoryPool};

#[derive(Debug, Eq, PartialEq)]
struct Item(u8, u8);
impl Reset for Item {
    fn reset_spec(&self, _len: usize, after: &Self) -> bool {
        after.0 == self.0 && after.1 == 0
    }

    fn reset(&mut self, _len: usize) {
        self.1 = 0;
    }
}

#[test]
fn test_heap_shrink_then_grow_stays_zeroed() {
    let mut pool = VmMemoryPool::new();
    let big = MAX_HEAP_FRAME_BYTES;
    let small = MIN_HEAP_FRAME_BYTES;

    let mut heap = pool.get_heap(big);
    heap.as_slice_mut().fill(0xaa);
    assert!(pool.put_heap(heap, big as usize));

    let mut heap = pool.get_heap(small);
    heap.as_slice_mut()
        .get_mut(..small as usize)
        .unwrap()
        .fill(0xbb);
    assert!(pool.put_heap(heap, small as usize));

    let heap = pool.get_heap(big);
    assert!(heap.as_slice().iter().all(|byte| *byte == 0));
}

#[test]
fn test_pool() {
    let mut pool = Pool::<Item, 2>::new([Item(0, 1), Item(1, 1)]);
    assert_eq!(pool.get(), Some(Item(1, 1)));
    assert_eq!(pool.get(), Some(Item(0, 1)));
    assert_eq!(pool.get(), None);
    pool.put(Item(1, 1), 0);
    assert_eq!(pool.get(), Some(Item(1, 0)));
    pool.put(Item(2, 2), 0);
    pool.put(Item(3, 3), 0);
    assert!(!pool.put(Item(4, 4), 0));
    assert_eq!(pool.get(), Some(Item(3, 0)));
    assert_eq!(pool.get(), Some(Item(2, 0)));
    assert_eq!(pool.get(), None);
}

#[test]
fn pool_capacity_and_put_then_get() {
    let mut pool = Pool::<Item, 3>::new([Item(0, 9), Item(1, 9), Item(2, 9)]);
    assert_eq!(pool.len(), 3);
    assert!(!pool.put(Item(7, 7), 0));
    assert_eq!(pool.get(), Some(Item(2, 9)));
    assert!(pool.put(Item(5, 5), 0));
    assert_eq!(pool.get(), Some(Item(5, 0)));
}

#[test]
fn new_pool_is_full_of_zeroed_regions() {
    let mut pool = VmMemoryPool::new();
    assert_eq!(pool.stack_len(), MAX_INSTRUCTION_STACK_DEPTH_SIMD_0268);
    assert_eq!(pool.heap_len(), MAX_INSTRUCTION_STACK_DEPTH_SIMD_0268);
    let stack_size = solana_sbpf::vm::get_stack_frame_size() * MAX_CALL_DEPTH;
    let stack = pool.get_stack(stack_size);
    assert_eq!(stack.len(), stack_size);
    assert!(stack.as_slice().iter().all(|b| *b == 0));
    let heap = pool.get_heap(MIN_HEAP_FRAME_BYTES);
    assert_eq!(heap.len(), MAX_HEAP_FRAME_BYTES as usize);
    let frames = pool.get_call_frames();
    assert_eq!(frames.len(), MAX_CALL_DEPTH);
}

#[test]
fn stack_comes_back_fully_zeroed() {
    let mut pool = VmMemoryPool::new();
    let stack_size = solana_sbpf::vm::get_stack_frame_size() * MAX_CALL_DEPTH;
    let mut stack = pool.get_stack(stack_size);
    stack.as_slice_mut().fill(0x5a);
    assert!(pool.put_stack(stack));
    let stack = pool.get_stack(stack_size);
    assert!(stack.as_slice().iter().all(|b| *b == 0));
}

#[test]
fn heap_beyond_mapped_length_is_kept() {
    let mut pool = VmMemoryPool::new();
    let mut heap = pool.get_heap(MAX_HEAP_FRAME_BYTES);
    heap.as_slice_mut().fill(0x11);
    assert!(pool.put_heap(heap, 100));
    let heap = pool.get_heap(MAX_HEAP_FRAME_BYTES);
    assert!(heap.as_slice()[..100].iter().all(|b| *b == 0));
    assert!(heap.as_slice()[100..].iter().all(|b| *b == 0x11));
}

#[test]
fn empty_pools_allocate_and_full_pools_refuse() {
    let mut pool = VmMemoryPool::new();
    let mut heaps = Vec::new();
    for _ in 0..MAX_INSTRUCTION_STACK_DEPTH_SIMD_0268 {
        heaps.push(pool.get_heap(MAX_HEAP_FRAME_BYTES));
    }
    let fresh = pool.get_heap(MIN_HEAP_FRAME_BYTES);
    assert_eq!(fresh.len(), MAX_HEAP_FRAME_BYTES as usize);
    assert!(fresh.as_slice().iter().all(|b| *b == 0));
    for heap in heaps {
        assert!(pool.put_heap(heap, 0));
    }
    assert!(!pool.put_heap(fresh, 0));

    let mut frames = Vec::new();
    for _ in 0..MAX_INSTRUCTION_STACK_DEPTH_SIMD_0268 + 1 {
        frames.push(pool.get_call_frames());
    }
    assert!(frames.iter().all(|f| f.len() == MAX_CALL_DEPTH));
    let mut accepted = 0;
    for f in frames {
        if pool.put_call_frames(f) {
            accepted += 1;
        }
    }
    assert_eq!(accepted, MAX_INSTRUCTION_STACK_DEPTH_SIMD_0268);
}

#[test]
fn call_frames_are_writable_and_come_back_reset() {
    let mut pool = VmMemoryPool::new();
    let mut frames = pool.get_call_frames();
    frames[3].frame_pointer = 0xdead;
    frames[5].target_pc = 7;
    assert!(pool.put_call_frames(frames));
    let frames = pool.get_call_frames();
    assert_eq!(frames.len(), MAX_CALL_DEPTH);
    assert!(frames.iter().all(|f| f.frame_pointer == 0 && f.target_pc == 0));
}
