//! Verified building blocks of a Solana validator runtime: transaction cost
//! accounting, the pool of reusable VM memory regions, the host-side layout of
//! the FPGA proof-of-history accelerator, and the selection of writable
//! accounts of a transaction message.

pub mod transaction_cost;
pub mod execution_budget;
pub mod vm_memory;
pub mod mem_pool;
pub mod dma;
pub mod poh_core;
pub mod fpga;
pub mod transaction_with_meta;
