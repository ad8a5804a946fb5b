//! Host-side logic of the FPGA proof-of-history accelerator: how the work is
//! split over the cores, where each core's memories lie, and how hashes and
//! iteration counts are framed into and out of the DMA buffers.
use vstd::prelude::*;
use crate::poh_core::{Error as PohCoreError, PohCoreBaseAddrs};
use crate::dma::{dma_buffer_bytes, dma_buffer_extend, dma_buffer_new, dma_bytes, dma_room, max_dma_len};
use vstd::bytes::{spec_u64_to_le_bytes, u64_to_le_bytes};
use warp_devices::xdma::{DmaBuffer, Error as XdmaError};

verus! {

/// Number of PoH cores on the card.
pub const NUM_POH_CORES: usize = 4;

/// Base of the shell windows of the cores.
pub const VARIUM_SHELL_BASE: u64 = 0x6_0000;

/// Base of the high-bandwidth memory.
pub const VARIUM_HBM_BASE: u64 = 0;

/// Size of one HBM bank.
pub const VARIUM_HBM_BANK_SIZE: u64 = 256 * 1024 * 1024;

/// Most hashes the card takes in one job: 16 banks of 32-byte hashes
/// (`16 * VARIUM_HBM_BANK_SIZE / 32`). Only even HBM banks are used for hash storage.
pub const VARIUM_HBM_MAX_HASHES: usize = 134_217_728;

/// Shell address of the register that holds the cores in reset.
pub const VARIUM_RESET_CORE_BASE: u64 = 0x7_0000;

/// Errors of the accelerator interface.
#[derive(Debug)]
pub enum Error {
    Xdma(XdmaError),
    InputLengthMismatch,
    OutOfDeviceMemory,
    PohCore(PohCoreError),
}

/// The base addresses of core `n`: a 4 KiB shell window per core from
/// `VARIUM_SHELL_BASE` (0x6_0000), hashes in HBM bank `2n`, iteration counts
/// in bank `2n + 1`, banks being `VARIUM_HBM_BANK_SIZE` (0x1000_0000) bytes
/// from `VARIUM_HBM_BASE` (0).
pub open spec fn core_base_addrs(n: int) -> PohCoreBaseAddrs {
    PohCoreBaseAddrs {
        shell_base: (0x6_0000 + n * 0x1000) as u64,
        hashes_base: (0x1000_0000 * (n * 2)) as u64,
        num_iters_base: (0x1000_0000 * (n * 2 + 1)) as u64,
    }
}

/// Computes the base addresses of memories and memory-mapped interfaces of all PoH cores.
pub fn poh_core_base_addrs() -> (addrs: Vec<PohCoreBaseAddrs>)
    ensures
        addrs@ == Seq::new(NUM_POH_CORES as nat, |n: int| core_base_addrs(n)),
{
    let mut addrs: Vec<PohCoreBaseAddrs> = Vec::new();
    let mut n: u64 = 0;
    while n < NUM_POH_CORES as u64
        invariant
            n <= NUM_POH_CORES,
            addrs@ == Seq::new(n as nat, |i: int| core_base_addrs(i)),
        decreases NUM_POH_CORES - n,
    {
        assert(VARIUM_HBM_BANK_SIZE * n * 2 <= 0x8000_0000 && VARIUM_HBM_BANK_SIZE * (n * 2 + 1)
            <= 0x8000_0000) by (nonlinear_arith)
            requires
                n < 4,
                VARIUM_HBM_BANK_SIZE == 0x1000_0000,
        ;
        addrs.push(
            PohCoreBaseAddrs {
                shell_base: VARIUM_SHELL_BASE + n * 0x1000,
                hashes_base: VARIUM_HBM_BASE + VARIUM_HBM_BANK_SIZE * n * 2,
                num_iters_base: VARIUM_HBM_BASE + VARIUM_HBM_BANK_SIZE * (n * 2 + 1),
            },
        );
        n = n + 1;
        assert(addrs@ =~= Seq::new(n as nat, |i: int| core_base_addrs(i)));
    }
    addrs
}

/// The number of hashes core `core` processes out of `num_hashes`: an equal
/// share each, core 0 also taking the remainder.
pub open spec fn core_share(num_hashes: int, core: int) -> int {
    if core == 0 {
        num_hashes / NUM_POH_CORES as int + num_hashes % NUM_POH_CORES as int
    } else {
        num_hashes / NUM_POH_CORES as int
    }
}

/// Computes the numbers of hashes to be processed by each core. Core 0 will
/// additionally process the remainder of hashes after the division into `NUM_POH_CORES`.
pub fn per_core_lens(num_hashes: usize) -> (lens: Vec<usize>)
    ensures
        lens@.len() == NUM_POH_CORES,
        forall|core: int| 0 <= core < NUM_POH_CORES ==> #[trigger] lens@[core] == core_share(num_hashes as int, core),
        lens@[0] == num_hashes / NUM_POH_CORES + num_hashes % NUM_POH_CORES,
        forall|core: int| 1 <= core < NUM_POH_CORES ==> #[trigger] lens@[core] == num_hashes / NUM_POH_CORES,
{
    proof {
        lemma_core_share_split(num_hashes as int);
    }
    let num_hashes_per_core = num_hashes / NUM_POH_CORES;
    let rem_hashes_per_core = num_hashes % NUM_POH_CORES;
    let mut lens: Vec<usize> = Vec::new();
    lens.push(num_hashes_per_core + rem_hashes_per_core);
    let mut i: usize = 1;
    while i < NUM_POH_CORES
        invariant
            1 <= i <= NUM_POH_CORES,
            lens@.len() == i,
            num_hashes_per_core == num_hashes / NUM_POH_CORES,
            rem_hashes_per_core == num_hashes % NUM_POH_CORES,
            forall|core: int| 0 <= core < i ==> #[trigger] lens@[core] == core_share(num_hashes as int, core),
        decreases NUM_POH_CORES - i,
    {
        lens.push(num_hashes_per_core);
        i = i + 1;
    }
    lens
}


/// The bytes of a sequence of hashes, one after the other.
pub open spec fn hash_bytes(hashes: Seq<[u8; 32]>) -> Seq<u8>
    decreases hashes.len(),
{
    if hashes.len() == 0 {
        Seq::empty()
    } else {
        hash_bytes(hashes.drop_last()) + hashes.last()@
    }
}

/// The little-endian bytes of a sequence of iteration counts, one after the other.
pub open spec fn iter_bytes(num_iters: Seq<u64>) -> Seq<u8>
    decreases num_iters.len(),
{
    if num_iters.len() == 0 {
        Seq::empty()
    } else {
        iter_bytes(num_iters.drop_last()) + spec_u64_to_le_bytes(num_iters.last())
    }
}

/// The 32 bytes of hash number `i` in a hash buffer.
pub open spec fn hash_chunk(bytes: Seq<u8>, i: int) -> Seq<u8> {
    bytes.subrange(32 * i, 32 * i + 32)
}

/// The 8 bytes of count number `i` in an iteration-count buffer.
pub open spec fn count_chunk(bytes: Seq<u8>, i: int) -> Seq<u8> {
    bytes.subrange(8 * i, 8 * i + 8)
}

/// The 32 bytes of the `i`-th hash appended after the first `start` bytes of a buffer.
pub open spec fn hash_slot(bytes: Seq<u8>, start: int, i: int) -> Seq<u8> {
    bytes.subrange(start + 32 * i, start + 32 * i + 32)
}

/// The 8 bytes of the `i`-th count appended after the first `start` bytes of a buffer.
pub open spec fn count_slot(bytes: Seq<u8>, start: int, i: int) -> Seq<u8> {
    bytes.subrange(start + 8 * i, start + 8 * i + 8)
}

/// `after` is `before` with `counts` appended, each as its eight little-endian
/// bytes, in order: count `i` sits at bytes `8 * i .. 8 * i + 8` past `before`.
pub open spec fn counts_framed(before: Seq<u8>, after: Seq<u8>, counts: Seq<u64>) -> bool {
    &&& after.len() == before.len() + 8 * counts.len()
    &&& after.subrange(0, before.len() as int) == before
    &&& forall|i: int|
        0 <= i < counts.len() ==> #[trigger] count_slot(after, before.len() as int, i)
            == spec_u64_to_le_bytes(counts[i])
}

/// `after` is `before` with `hashes` appended, 32 bytes each, in order: hash
/// `i` sits at bytes `32 * i .. 32 * i + 32` past `before`.
pub open spec fn hashes_framed(before: Seq<u8>, after: Seq<u8>, hashes: Seq<[u8; 32]>) -> bool {
    &&& after.len() == before.len() + 32 * hashes.len()
    &&& after.subrange(0, before.len() as int) == before
    &&& forall|i: int|
        0 <= i < hashes.len() ==> #[trigger] hash_slot(after, before.len() as int, i) == hashes[i]@
}

/// The index of the first hash of core `k`: the hashes of the cores before it.
pub open spec fn core_offset(lens: Seq<usize>, k: int) -> int
    decreases k,
{
    if k <= 0 {
        0
    } else {
        core_offset(lens, k - 1) + lens[k - 1]
    }
}

/// The hashes of all cores together.
pub open spec fn total_hashes(lens: Seq<usize>) -> int {
    core_offset(lens, lens.len() as int)
}

/// The part of `items` that core `k` processes.
pub open spec fn core_part<A>(lens: Seq<usize>, items: Seq<A>, k: int) -> Seq<A> {
    items.subrange(core_offset(lens, k), core_offset(lens, k) + lens[k])
}

/// The DMA buffers of one core.
pub struct FpgaPerfBuffer {
    pub hashes_buf: DmaBuffer,
    pub num_iters_buf: DmaBuffer,
    pub num_hashes: usize,
}

impl FpgaPerfBuffer {
    /// Empty buffers with room for `num_hashes` hashes and iteration counts.
    pub fn new(num_hashes: usize) -> (buf: Self)
        requires
            num_hashes * 32 <= max_dma_len(),
        ensures
            buf.num_hashes == num_hashes,
            dma_bytes(buf.hashes_buf) == Seq::<u8>::empty(),
            dma_bytes(buf.num_iters_buf) == Seq::<u8>::empty(),
            dma_room(buf.hashes_buf) >= 32 * num_hashes,
            dma_room(buf.num_iters_buf) >= 8 * num_hashes,
    {
        Self {
            hashes_buf: dma_buffer_new(num_hashes * 32),
            num_iters_buf: dma_buffer_new(num_hashes * 8),
            num_hashes,
        }
    }
}

/// The DMA buffers of all cores.
pub struct FpgaPerfBuffers {
    pub dma_bufs: Vec<FpgaPerfBuffer>,
}

impl FpgaPerfBuffers {
    /// The number of hashes of each core.
    pub open spec fn lens(&self) -> Seq<usize> {
        self.dma_bufs@.map_values(|b: FpgaPerfBuffer| b.num_hashes)
    }

    /// The bytes of core `k`'s hash buffer.
    pub open spec fn hashes_of(&self, k: int) -> Seq<u8> {
        dma_bytes(self.dma_bufs@[k].hashes_buf)
    }

    /// The bytes of core `k`'s iteration-count buffer.
    pub open spec fn num_iters_of(&self, k: int) -> Seq<u8> {
        dma_bytes(self.dma_bufs@[k].num_iters_buf)
    }

    /// The room of core `k`'s hash buffer.
    pub open spec fn hashes_room(&self, k: int) -> nat {
        dma_room(self.dma_bufs@[k].hashes_buf)
    }

    /// The room of core `k`'s iteration-count buffer.
    pub open spec fn num_iters_room(&self, k: int) -> nat {
        dma_room(self.dma_bufs@[k].num_iters_buf)
    }

    /// Empty buffers for cores that process `per_core_lens` hashes each, with
    /// room for each core's hashes (32 bytes each) and iteration counts (8 bytes each).
    pub fn new(per_core_lens: Vec<usize>) -> (bufs: Self)
        requires
            forall|k: int| 0 <= k < per_core_lens@.len() ==> #[trigger] per_core_lens@[k] * 32 <= max_dma_len(),
        ensures
            bufs.lens() == per_core_lens@,
            forall|k: int| 0 <= k < per_core_lens@.len() ==> #[trigger] bufs.hashes_of(k) == Seq::<u8>::empty()
                && bufs.num_iters_of(k) == Seq::<u8>::empty() && bufs.hashes_room(k) >= 32
                * per_core_lens@[k] && bufs.num_iters_room(k) >= 8 * per_core_lens@[k],
    {
        let mut dma_bufs: Vec<FpgaPerfBuffer> = Vec::new();
        let mut k: usize = 0;
        while k < per_core_lens.len()
            invariant
                k <= per_core_lens@.len(),
                forall|j: int| 0 <= j < per_core_lens@.len() ==> #[trigger] per_core_lens@[j] * 32 <= max_dma_len(),
                dma_bufs@.len() == k,
                forall|j: int| 0 <= j < k ==> (#[trigger] dma_bufs@[j]).num_hashes == per_core_lens@[j]
                    && dma_bytes(dma_bufs@[j].hashes_buf) == Seq::<u8>::empty()
                    && dma_bytes(dma_bufs@[j].num_iters_buf) == Seq::<u8>::empty()
                    && dma_room(dma_bufs@[j].hashes_buf) >= 32 * per_core_lens@[j]
                    && dma_room(dma_bufs@[j].num_iters_buf) >= 8 * per_core_lens@[j],
            decreases per_core_lens@.len() - k,
        {
            dma_bufs.push(FpgaPerfBuffer::new(per_core_lens[k]));
            k = k + 1;
        }
        let bufs = Self { dma_bufs };
        assert(bufs.lens() =~= per_core_lens@);
        bufs
    }
}


impl FpgaPerfBuffers {
    /// Copies the input hashes and numbers of iterations to the input buffers:
    /// each core's buffers get, appended, the bytes of its consecutive part of
    /// `hashes` and of `num_iters` (little-endian), core 0's part first.
    pub fn buffer_inputs(&mut self, hashes: &[[u8; 32]], num_iters: &[u64])
        requires
            total_hashes(old(self).lens()) <= hashes@.len(),
            total_hashes(old(self).lens()) <= num_iters@.len(),
            forall|k: int|
                0 <= k < old(self).lens().len() ==> #[trigger] old(self).hashes_of(k).len() + 32
                    * old(self).lens()[k] <= old(self).hashes_room(k) && old(self).num_iters_of(k).len()
                    + 8 * old(self).lens()[k] <= old(self).num_iters_room(k),
        ensures
            final(self).lens() == old(self).lens(),
            forall|k: int|
                0 <= k < old(self).lens().len() ==> #[trigger] final(self).hashes_room(k) == old(
                    self,
                ).hashes_room(k) && final(self).num_iters_room(k) == old(self).num_iters_room(k),
            forall|k: int|
                0 <= k < old(self).lens().len() ==> #[trigger] final(self).hashes_of(k) == old(
                    self,
                ).hashes_of(k) + hash_bytes(core_part(old(self).lens(), hashes@, k))
                    && final(self).num_iters_of(k) == old(self).num_iters_of(k) + iter_bytes(
                    core_part(old(self).lens(), num_iters@, k),
                ),
            forall|k: int|
                0 <= k < old(self).lens().len() ==> #[trigger] counts_framed(
                    old(self).num_iters_of(k),
                    final(self).num_iters_of(k),
                    core_part(old(self).lens(), num_iters@, k),
                ) && hashes_framed(
                    old(self).hashes_of(k),
                    final(self).hashes_of(k),
                    core_part(old(self).lens(), hashes@, k),
                ),
    {
        let ghost lens = old(self).lens();
        let hashes_len = hashes.len();
        let mut offset: usize = 0;
        let mut k: usize = 0;
        while k < self.dma_bufs.len()
            invariant
                lens == old(self).lens(),
                self.lens() == lens,
                k <= lens.len(),
                offset == core_offset(lens, k as int),
                hashes_len == hashes@.len(),
                total_hashes(lens) <= hashes@.len(),
                total_hashes(lens) <= num_iters@.len(),
                forall|j: int|
                    k <= j < lens.len() ==> #[trigger] self.dma_bufs@[j] == old(self).dma_bufs@[j],
                forall|j: int|
                    0 <= j < k ==> #[trigger] self.hashes_of(j) == old(self).hashes_of(j) + hash_bytes(
                        core_part(lens, hashes@, j),
                    ) && self.num_iters_of(j) == old(self).num_iters_of(j) + iter_bytes(
                        core_part(lens, num_iters@, j),
                    ),
                forall|j: int|
                    0 <= j < lens.len() ==> #[trigger] old(self).hashes_of(j).len() + 32 * lens[j]
                        <= old(self).hashes_room(j) && old(self).num_iters_of(j).len() + 8 * lens[j]
                        <= old(self).num_iters_room(j),
                forall|j: int|
                    0 <= j < k ==> #[trigger] self.hashes_room(j) == old(self).hashes_room(j)
                        && self.num_iters_room(j) == old(self).num_iters_room(j),
            decreases lens.len() - k,
        {
            proof {
                lemma_core_offset_bounds(lens, k as int);
            }
            let ghost before = self.dma_bufs@;
            let n = self.dma_bufs[k].num_hashes;
            proof {
                assert forall|j: int| 0 <= j < k implies dma_bytes((#[trigger] before[j]).hashes_buf)
                    == old(self).hashes_of(j) + hash_bytes(core_part(lens, hashes@, j)) && dma_bytes(
                    before[j].num_iters_buf,
                ) == old(self).num_iters_of(j) + iter_bytes(core_part(lens, num_iters@, j)) && dma_room(
                    before[j].hashes_buf,
                ) == old(self).hashes_room(j) && dma_room(before[j].num_iters_buf) == old(
                    self,
                ).num_iters_room(j) by {
                    assert(self.hashes_of(j) == dma_bytes(before[j].hashes_buf));
                    assert(self.hashes_room(j) == dma_room(before[j].hashes_buf));
                }
                assert(before[k as int] == old(self).dma_bufs@[k as int]);
                assert(old(self).hashes_of(k as int).len() + 32 * lens[k as int] <= old(self).hashes_room(k as int));
                assert(hashes@.subrange(offset as int, offset as int) =~= Seq::<[u8; 32]>::empty());
                assert(num_iters@.subrange(offset as int, offset as int) =~= Seq::<u64>::empty());
            }
            let mut i: usize = 0;
            while i < n
                invariant
                    lens == old(self).lens(),
                    before.len() == lens.len(),
                    self.dma_bufs@.len() == lens.len(),
                    k < lens.len(),
                    n == lens[k as int],
                    i <= n,
                    offset == core_offset(lens, k as int),
                    offset + n <= total_hashes(lens),
                    hashes_len == hashes@.len(),
                    total_hashes(lens) <= hashes@.len(),
                    total_hashes(lens) <= num_iters@.len(),
                    forall|j: int|
                        0 <= j < lens.len() && j != k ==> #[trigger] self.dma_bufs@[j] == before[j],
                    self.dma_bufs@[k as int].num_hashes == n,
                    dma_bytes(self.dma_bufs@[k as int].hashes_buf) == dma_bytes(
                        before[k as int].hashes_buf,
                    ) + hash_bytes(hashes@.subrange(offset as int, offset + i)),
                    dma_bytes(self.dma_bufs@[k as int].num_iters_buf) == dma_bytes(
                        before[k as int].num_iters_buf,
                    ) + iter_bytes(num_iters@.subrange(offset as int, offset + i)),
                    dma_bytes(before[k as int].hashes_buf).len() + 32 * n <= dma_room(before[k as int].hashes_buf),
                    dma_bytes(before[k as int].num_iters_buf).len() + 8 * n <= dma_room(
                        before[k as int].num_iters_buf,
                    ),
                    dma_room(self.dma_bufs@[k as int].hashes_buf) == dma_room(before[k as int].hashes_buf),
                    dma_room(self.dma_bufs@[k as int].num_iters_buf) == dma_room(
                        before[k as int].num_iters_buf,
                    ),
                decreases n - i,
            {
                let offset_i = offset + i;
                proof {
                    lemma_hash_bytes_len(hashes@.subrange(offset as int, offset + i));
                    lemma_iter_bytes_len(num_iters@.subrange(offset as int, offset + i));
                    assert(hashes@.subrange(offset as int, offset + i + 1) =~= hashes@.subrange(
                        offset as int,
                        offset + i,
                    ).push(hashes@[offset_i as int]));
                    assert(num_iters@.subrange(offset as int, offset + i + 1) =~= num_iters@.subrange(
                        offset as int,
                        offset + i,
                    ).push(num_iters@[offset_i as int]));
                    let hs = hashes@.subrange(offset as int, offset + i);
                    let ns = num_iters@.subrange(offset as int, offset + i);
                    assert(hs.push(hashes@[offset_i as int]).drop_last() =~= hs);
                    assert(ns.push(num_iters@[offset_i as int]).drop_last() =~= ns);
                }
                let hash: [u8; 32] = hashes[offset_i];
                dma_buffer_extend(&mut self.dma_bufs[k].hashes_buf, &hash);
                let iters = u64_to_le_bytes(num_iters[offset_i]);
                dma_buffer_extend(&mut self.dma_bufs[k].num_iters_buf, iters.as_slice());
                i = i + 1;
            }
            proof {
                assert(self.lens() =~= lens);
                assert forall|j: int| 0 <= j < k + 1 implies #[trigger] self.hashes_of(j) == old(
                    self,
                ).hashes_of(j) + hash_bytes(core_part(lens, hashes@, j)) && self.num_iters_of(j)
                    == old(self).num_iters_of(j) + iter_bytes(core_part(lens, num_iters@, j)) by {
                    if j < k {
                        assert(self.dma_bufs@[j] == before[j]);
                    } else {
                        assert(hashes@.subrange(offset as int, offset + n) == core_part(lens, hashes@, j));
                        assert(num_iters@.subrange(offset as int, offset + n) == core_part(
                            lens,
                            num_iters@,
                            j,
                        ));
                    }
                }
                assert forall|j: int| 0 <= j < k + 1 implies #[trigger] self.hashes_room(j) == old(
                    self,
                ).hashes_room(j) && self.num_iters_room(j) == old(self).num_iters_room(j) by {
                    if j < k {
                        assert(self.dma_bufs@[j] == before[j]);
                    }
                }
                assert forall|j: int| k + 1 <= j < lens.len() implies #[trigger] self.dma_bufs@[j]
                    == old(self).dma_bufs@[j] by {
                    assert(self.dma_bufs@[j] == before[j]);
                }
            }
            offset = offset + n;
            k = k + 1;
        }
        proof {
            assert forall|k: int| 0 <= k < lens.len() implies #[trigger] counts_framed(
                old(self).num_iters_of(k),
                self.num_iters_of(k),
                core_part(lens, num_iters@, k),
            ) && hashes_framed(
                old(self).hashes_of(k),
                self.hashes_of(k),
                core_part(lens, hashes@, k),
            ) by {
                assert(self.hashes_of(k) == old(self).hashes_of(k) + hash_bytes(core_part(lens, hashes@, k)));
                lemma_counts_framed(old(self).num_iters_of(k), core_part(lens, num_iters@, k));
                lemma_hashes_framed(old(self).hashes_of(k), core_part(lens, hashes@, k));
            }
        }
    }
}

/// The hash bytes of `n` hashes are `32 * n` bytes.
pub proof fn lemma_hash_bytes_len(hashes: Seq<[u8; 32]>)
    ensures
        hash_bytes(hashes).len() == 32 * hashes.len(),
    decreases hashes.len(),
{
    if hashes.len() > 0 {
        lemma_hash_bytes_len(hashes.drop_last());
    }
}

/// The bytes of `n` iteration counts are `8 * n` bytes.
pub proof fn lemma_iter_bytes_len(num_iters: Seq<u64>)
    ensures
        iter_bytes(num_iters).len() == 8 * num_iters.len(),
    decreases num_iters.len(),
{
    vstd::bytes::lemma_auto_spec_u64_to_from_le_bytes();
    if num_iters.len() > 0 {
        lemma_iter_bytes_len(num_iters.drop_last());
    }
}

/// Each core's part starts where the previous ones end, and all parts lie
/// within the total.
pub proof fn lemma_core_offset_bounds(lens: Seq<usize>, k: int)
    requires
        0 <= k < lens.len(),
    ensures
        0 <= core_offset(lens, k),
        core_offset(lens, k) + lens[k] == core_offset(lens, k + 1),
        core_offset(lens, k + 1) <= total_hashes(lens),
    decreases lens.len() - k,
{
    lemma_core_offset_nonneg(lens, k);
    if k + 1 < lens.len() {
        lemma_core_offset_bounds(lens, k + 1);
    }
}

proof fn lemma_core_offset_nonneg(lens: Seq<usize>, k: int)
    ensures
        0 <= core_offset(lens, k),
    decreases k,
{
    if k > 0 {
        lemma_core_offset_nonneg(lens, k - 1);
    }
}


impl FpgaPerfBuffers {
    /// Copies the output hashes from the DMA buffers to `hashes`: hash `i` of
    /// core `k`'s buffer becomes element `core_offset(k) + i`; the elements
    /// past all cores' parts stay.
    pub fn unbuffer_outputs(&self, hashes: &mut [[u8; 32]])
        requires
            total_hashes(self.lens()) <= old(hashes)@.len(),
            forall|k: int|
                0 <= k < self.lens().len() ==> 32 * self.lens()[k] <= (#[trigger] self.hashes_of(k)).len(),
        ensures
            final(hashes)@.len() == old(hashes)@.len(),
            forall|k: int, i: int|
                0 <= k < self.lens().len() && 0 <= i < self.lens()[k] ==> final(hashes)@[core_offset(
                    self.lens(),
                    k,
                ) + i]@ == #[trigger] hash_chunk(self.hashes_of(k), i),
            forall|j: int|
                total_hashes(self.lens()) <= j < old(hashes)@.len() ==> #[trigger] final(hashes)@[j]
                    == old(hashes)@[j],
    {
        let ghost lens = self.lens();
        let hashes_len = hashes.len();
        let mut offset: usize = 0;
        let mut result_buf: [u8; 32] = [0; 32];
        let mut k: usize = 0;
        while k < self.dma_bufs.len()
            invariant
                lens == self.lens(),
                k <= lens.len(),
                offset == core_offset(lens, k as int),
                hashes@.len() == old(hashes)@.len(),
                hashes_len == hashes@.len(),
                total_hashes(lens) <= hashes@.len(),
                forall|kk: int|
                    0 <= kk < lens.len() ==> 32 * lens[kk] <= (#[trigger] self.hashes_of(kk)).len(),
                forall|kk: int, i: int|
                    0 <= kk < k && 0 <= i < lens[kk] ==> hashes@[core_offset(lens, kk) + i]@
                        == #[trigger] hash_chunk(self.hashes_of(kk), i),
                forall|j: int| offset <= j < hashes@.len() ==> #[trigger] hashes@[j] == old(hashes)@[j],
            decreases lens.len() - k,
        {
            proof {
                lemma_core_offset_bounds(lens, k as int);
                lemma_core_offset_monotone(lens, k as int);
            }
            let buf = &self.dma_bufs[k];
            let bytes = dma_buffer_bytes(&buf.hashes_buf);
            let n = buf.num_hashes;
            let bytes_len = bytes.len();
            assert(32 * n <= bytes@.len()) by {
                assert(32 * lens[k as int] <= self.hashes_of(k as int).len());
            }
            let mut i: usize = 0;
            while i < n
                invariant
                    lens == self.lens(),
                    k < lens.len(),
                    n == lens[k as int],
                    bytes@ == self.hashes_of(k as int),
                    32 * n <= bytes@.len(),
                    bytes_len == bytes@.len(),
                    hashes_len == hashes@.len(),
                    i <= n,
                    offset == core_offset(lens, k as int),
                    offset + n <= total_hashes(lens),
                    hashes@.len() == old(hashes)@.len(),
                    total_hashes(lens) <= hashes@.len(),
                    forall|kk: int| 0 <= kk < k ==> core_offset(lens, kk) + lens[kk] <= offset,
                    forall|kk: int, ii: int|
                        0 <= kk < k && 0 <= ii < lens[kk] ==> hashes@[core_offset(lens, kk) + ii]@
                            == #[trigger] hash_chunk(self.hashes_of(kk), ii),
                    forall|ii: int|
                        0 <= ii < i ==> hashes@[offset + ii]@ == #[trigger] hash_chunk(
                            self.hashes_of(k as int),
                            ii,
                        ),
                    forall|j: int| offset + i <= j < hashes@.len() ==> #[trigger] hashes@[j] == old(hashes)@[j],
                decreases n - i,
            {
                let offset_i = offset + i;
                let mut j: usize = 0;
                while j < 32
                    invariant
                        j <= 32,
                        i < n,
                        32 * n <= bytes@.len(),
                        bytes_len == bytes@.len(),
                        forall|jj: int| 0 <= jj < j ==> #[trigger] result_buf@[jj] == bytes@[32 * i + jj],
                    decreases 32 - j,
                {
                    result_buf[j] = bytes[i * 32 + j];
                    j = j + 1;
                }
                assert(result_buf@ =~= hash_chunk(self.hashes_of(k as int), i as int));
                let ghost prev = hashes@;
                hashes[offset_i] = result_buf;
                assert forall|kk: int, ii: int|
                    0 <= kk < k && 0 <= ii < lens[kk] implies hashes@[core_offset(lens, kk) + ii]@
                    == #[trigger] hash_chunk(self.hashes_of(kk), ii) by {
                    lemma_core_offset_nonneg(lens, kk);
                    assert(core_offset(lens, kk) + lens[kk] <= offset);
                    assert(hashes@[core_offset(lens, kk) + ii] == prev[core_offset(lens, kk) + ii]);
                }
                i = i + 1;
            }
            offset = offset + n;
            k = k + 1;
        }
    }
}

/// The parts of the cores before core `k` end no later than core `k`'s begins.
pub proof fn lemma_core_offset_monotone(lens: Seq<usize>, k: int)
    requires
        0 <= k < lens.len(),
    ensures
        forall|kk: int| 0 <= kk < k ==> #[trigger] core_offset(lens, kk) + lens[kk] <= core_offset(lens, k),
    decreases k,
{
    if k > 0 {
        lemma_core_offset_monotone(lens, k - 1);
        lemma_core_offset_bounds(lens, k - 1);
    }
}


/// Hash `i` of the bytes of a sequence of hashes is hash `i` of the sequence.
pub proof fn lemma_hash_chunk(hashes: Seq<[u8; 32]>, i: int)
    requires
        0 <= i < hashes.len(),
    ensures
        hash_chunk(hash_bytes(hashes), i) == hashes[i]@,
    decreases hashes.len(),
{
    let prefix = hashes.drop_last();
    lemma_hash_bytes_len(prefix);
    if i == hashes.len() - 1 {
        assert(hash_chunk(hash_bytes(hashes), i) =~= hashes.last()@);
    } else {
        lemma_hash_chunk(prefix, i);
        lemma_hash_bytes_len(hashes);
        assert(hash_chunk(hash_bytes(hashes), i) =~= hash_chunk(hash_bytes(prefix), i));
    }
}

/// Law: count `i` of the bytes of a sequence of iteration counts is the
/// little-endian encoding of count `i` of the sequence, so each count sits at
/// the same position as the hash it belongs to.
pub proof fn lemma_count_chunk(num_iters: Seq<u64>, i: int)
    requires
        0 <= i < num_iters.len(),
    ensures
        count_chunk(iter_bytes(num_iters), i) == spec_u64_to_le_bytes(num_iters[i]),
    decreases num_iters.len(),
{
    vstd::bytes::lemma_auto_spec_u64_to_from_le_bytes();
    let prefix = num_iters.drop_last();
    lemma_iter_bytes_len(prefix);
    if i == num_iters.len() - 1 {
        assert(count_chunk(iter_bytes(num_iters), i) =~= spec_u64_to_le_bytes(num_iters.last()));
    } else {
        lemma_count_chunk(prefix, i);
        lemma_iter_bytes_len(num_iters);
        assert(count_chunk(iter_bytes(num_iters), i) =~= count_chunk(iter_bytes(prefix), i));
    }
}

/// Law: appending the bytes of a sequence of counts frames each count, in
/// order, as its little-endian bytes.
pub proof fn lemma_counts_framed(before: Seq<u8>, counts: Seq<u64>)
    ensures
        counts_framed(before, before + iter_bytes(counts), counts),
{
    lemma_iter_bytes_len(counts);
    let after = before + iter_bytes(counts);
    assert(after.subrange(0, before.len() as int) =~= before);
    assert forall|i: int| 0 <= i < counts.len() implies #[trigger] count_slot(after, before.len() as int, i)
        == spec_u64_to_le_bytes(counts[i]) by {
        lemma_count_chunk(counts, i);
        assert(count_slot(after, before.len() as int, i) =~= count_chunk(iter_bytes(counts), i));
    }
}

/// Law: appending the bytes of a sequence of hashes frames each hash, in
/// order, as its 32 bytes.
pub proof fn lemma_hashes_framed(before: Seq<u8>, hashes: Seq<[u8; 32]>)
    ensures
        hashes_framed(before, before + hash_bytes(hashes), hashes),
{
    lemma_hash_bytes_len(hashes);
    let after = before + hash_bytes(hashes);
    assert(after.subrange(0, before.len() as int) =~= before);
    assert forall|i: int| 0 <= i < hashes.len() implies #[trigger] hash_slot(after, before.len() as int, i)
        == hashes[i]@ by {
        lemma_hash_chunk(hashes, i);
        assert(hash_slot(after, before.len() as int, i) =~= hash_chunk(hash_bytes(hashes), i));
    }
}

/// Every index below the total lies in the part of some core below `m`.
proof fn lemma_locate(lens: Seq<usize>, j: int, m: int) -> (k: int)
    requires
        0 <= j < core_offset(lens, m),
        0 < m <= lens.len(),
    ensures
        0 <= k < m,
        core_offset(lens, k) <= j < core_offset(lens, k) + lens[k],
    decreases m,
{
    lemma_core_offset_bounds(lens, m - 1);
    if j >= core_offset(lens, m - 1) {
        m - 1
    } else {
        lemma_locate(lens, j, m - 1)
    }
}

/// Law: framing hashes into the cores' buffers (`buffer_inputs` on fresh
/// buffers) and copying them back out of the buffers (`unbuffer_outputs`)
/// gives back the same hashes, when the cores' parts cover all of them.
pub proof fn lemma_buffer_unbuffer_roundtrip(
    lens: Seq<usize>,
    hashes: Seq<[u8; 32]>,
    out: Seq<[u8; 32]>,
)
    requires
        total_hashes(lens) == hashes.len(),
        out.len() == hashes.len(),
        forall|k: int, i: int|
            0 <= k < lens.len() && 0 <= i < lens[k] ==> out[core_offset(lens, k) + i]@
                == #[trigger] hash_chunk(hash_bytes(core_part(lens, hashes, k)), i),
    ensures
        out == hashes,
{
    broadcast use vstd::array::group_array_axioms;
    assert forall|j: int| 0 <= j < hashes.len() implies #[trigger] out[j] == hashes[j] by {
        let k = lemma_locate(lens, j, lens.len() as int);
        let i = j - core_offset(lens, k);
        lemma_core_offset_bounds(lens, k);
        lemma_hash_chunk(core_part(lens, hashes, k), i);
        assert(out[j]@ == hashes[j]@);
        assert(out[j] =~= hashes[j]);
    }
    assert(out =~= hashes);
}


impl From<XdmaError> for Error {
    fn from(e: XdmaError) -> (r: Self) {
        Error::Xdma(e)
    }
}

impl vstd::std_specs::convert::FromSpecImpl<XdmaError> for Error {
    open spec fn obeys_from_spec() -> bool {
        true
    }

    open spec fn from_spec(e: XdmaError) -> Self {
        Error::Xdma(e)
    }
}

impl From<PohCoreError> for Error {
    fn from(e: PohCoreError) -> (r: Self) {
        Error::PohCore(e)
    }
}

impl vstd::std_specs::convert::FromSpecImpl<PohCoreError> for Error {
    open spec fn obeys_from_spec() -> bool {
        true
    }

    open spec fn from_spec(e: PohCoreError) -> Self {
        Error::PohCore(e)
    }
}

/// Law: every core but core 0 gets the equal share `num_hashes / NUM_POH_CORES`;
/// core 0 gets the equal share plus the remainder `num_hashes % NUM_POH_CORES`;
/// the shares differ by less than the number of cores and add up to `num_hashes`.
pub proof fn lemma_core_share_split(num_hashes: int)
    requires
        0 <= num_hashes,
    ensures
        core_share(num_hashes, 0) == num_hashes / NUM_POH_CORES as int + num_hashes % NUM_POH_CORES as int,
        forall|core: int| 1 <= core < NUM_POH_CORES ==> #[trigger] core_share(num_hashes, core)
            == num_hashes / NUM_POH_CORES as int,
        0 <= core_share(num_hashes, 0) - core_share(num_hashes, 1) < NUM_POH_CORES,
        core_share(num_hashes, 0) + core_share(num_hashes, 1) + core_share(num_hashes, 2)
            + core_share(num_hashes, 3) == num_hashes,
{
}

/// Law: the cores' parts together are exactly all `num_hashes` hashes.
pub proof fn lemma_core_shares_cover(num_hashes: usize, lens: Seq<usize>)
    requires
        lens.len() == NUM_POH_CORES,
        forall|core: int| 0 <= core < NUM_POH_CORES ==> #[trigger] lens[core] == core_share(num_hashes as int, core),
    ensures
        total_hashes(lens) == num_hashes,
{
    assert(lens[0] == core_share(num_hashes as int, 0));
    assert(lens[1] == core_share(num_hashes as int, 1));
    assert(lens[2] == core_share(num_hashes as int, 2));
    assert(lens[3] == core_share(num_hashes as int, 3));
    assert(total_hashes(lens) == lens[0] + lens[1] + lens[2] + lens[3]) by {
        reveal_with_fuel(core_offset, 5);
    }
}

/// The checks that precede a proof-of-history job, and the split of the work:
/// `hashes` and `num_iters` must be equally long and fit the card's memory;
/// then each core's number of hashes.
pub fn poh_job_core_lens(hashes: &[[u8; 32]], num_iters: &[u64]) -> (lens: Result<Vec<usize>, Error>)
    ensures
        hashes@.len() != num_iters@.len() <==> lens matches Err(Error::InputLengthMismatch),
        hashes@.len() == num_iters@.len() && hashes@.len() > VARIUM_HBM_MAX_HASHES <==> lens matches Err(
            Error::OutOfDeviceMemory,
        ),
        lens is Ok <==> hashes@.len() == num_iters@.len() && hashes@.len() <= VARIUM_HBM_MAX_HASHES,
        lens matches Ok(l) ==> l@.len() == NUM_POH_CORES && total_hashes(l@) == hashes@.len() && (
        forall|core: int|
            0 <= core < NUM_POH_CORES ==> #[trigger] l@[core] == core_share(hashes@.len() as int, core)
                && l@[core] * 32 <= max_dma_len()),
        lens matches Ok(l) ==> l@[0] == (hashes@.len() as int) / (NUM_POH_CORES as int) + (
        hashes@.len() as int) % (NUM_POH_CORES as int) && forall|core: int|
            1 <= core < NUM_POH_CORES ==> #[trigger] l@[core] == (hashes@.len() as int) / (
            NUM_POH_CORES as int),
{
    let num_hashes = hashes.len();
    if num_hashes != num_iters.len() {
        return Err(Error::InputLengthMismatch);
    }
    if num_hashes > VARIUM_HBM_MAX_HASHES {
        return Err(Error::OutOfDeviceMemory);
    }
    let lens = per_core_lens(num_hashes);
    proof {
        lemma_core_shares_cover(num_hashes, lens@);
        assert forall|core: int| 0 <= core < NUM_POH_CORES implies #[trigger] lens@[core] * 32 <= max_dma_len() by {
            assert(lens@[core] <= num_hashes / 4 + 3);
        }
    }
    Ok(lens)
}

/// The big-endian bytes of a 32-bit value.
pub open spec fn be_bytes(x: u32) -> Seq<u8> {
    seq![(x >> 24) as u8, (x >> 16) as u8, (x >> 8) as u8, x as u8]
}

fn u32_to_be_bytes(x: u32) -> (bytes: [u8; 4])
    ensures
        bytes@ == be_bytes(x),
{
    let bytes = [(x >> 24) as u8, (x >> 16) as u8, (x >> 8) as u8, x as u8];
    assert(bytes@ =~= be_bytes(x));
    bytes
}

/// The commands, in order, that take all cores into reset and out of it again:
/// all mask bits set, then none, big-endian, each written to `VARIUM_RESET_CORE_BASE`.
pub fn reset_kernel_commands() -> (cmds: Vec<[u8; 4]>)
    ensures
        cmds@.len() == 2,
        cmds@[0]@ == be_bytes(u32::MAX),
        cmds@[1]@ == be_bytes(0),
{
    let mut cmds: Vec<[u8; 4]> = Vec::new();
    cmds.push(u32_to_be_bytes(u32::MAX));
    cmds.push(u32_to_be_bytes(0));
    cmds
}

} // verus!
