# agave_runtime

Verified pieces of a Solana validator runtime, written in Verus.

- `src/transaction_cost.rs` — the cost of a transaction in compute units and
  its saturating total.
- `src/mem_pool.rs` — a fixed-capacity stack pool of reusable values, and the
  pools of VM stack, heap and call-frame regions built on it; a region is
  scrubbed when it is returned. `src/vm_memory.rs` and
  `src/execution_budget.rs` hold what the pool uses of `solana_sbpf` and the
  runtime's limits.
- `src/fpga.rs`, `src/poh_core.rs`, `src/dma.rs` — the host side of the FPGA
  proof-of-history accelerator: the split of a job over the cores, the cores'
  memory layout and register programming, and the framing of hashes and
  iteration counts into and out of the DMA buffers of `warp_devices`.
- `src/transaction_with_meta.rs` — selection of a message's writable accounts.

`app/` holds the device driver loop and the transaction traits, which talk to
hardware or to outside traits and so are not verified.
