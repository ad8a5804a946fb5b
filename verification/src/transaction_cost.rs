use vstd::prelude::*;

verus! {

/// The greatest value a `u64` holds, as a mathematical integer.
pub open spec fn u64_max() -> int {
    0xffff_ffff_ffff_ffff
}

/// The costs of one transaction, in compute units.
#[derive(Debug)]
pub struct TransactionCost {
    pub signature_cost: u64,
    pub write_lock_cost: u64,
    pub data_bytes_cost: u16,
    pub programs_execution_cost: u64,
    pub loaded_accounts_data_size_cost: u64,
    pub allocated_accounts_data_size: u64,
}

impl TransactionCost {
    /// The exact sum of the cost components (the allocated data size is a
    /// size, not a cost, and is not part of it).
    pub open spec fn exact_sum(&self) -> int {
        self.signature_cost + self.write_lock_cost + self.data_bytes_cost
            + self.programs_execution_cost + self.loaded_accounts_data_size_cost
    }

    /// The total cost: the sum of the cost components, saturated at `u64::MAX`.
    pub fn sum(&self) -> (total: u64)
        ensures
            total == if self.exact_sum() > u64_max() { u64_max() } else { self.exact_sum() },
    {
        let total = self.signature_cost
            .saturating_add(self.write_lock_cost)
            .saturating_add(self.data_bytes_cost as u64)
            .saturating_add(self.programs_execution_cost)
            .saturating_add(self.loaded_accounts_data_size_cost);
        total
    }

    /// The `programs_execution_cost` field.
    pub fn programs_execution_cost(&self) -> (v: u64)
        ensures
            v == self.programs_execution_cost,
    {
        self.programs_execution_cost
    }

    /// The `data_bytes_cost` field.
    pub fn data_bytes_cost(&self) -> (v: u16)
        ensures
            v == self.data_bytes_cost,
    {
        self.data_bytes_cost
    }

    /// The `allocated_accounts_data_size` field.
    pub fn allocated_accounts_data_size(&self) -> (v: u64)
        ensures
            v == self.allocated_accounts_data_size,
    {
        self.allocated_accounts_data_size
    }

    /// The `loaded_accounts_data_size_cost` field.
    pub fn loaded_accounts_data_size_cost(&self) -> (v: u64)
        ensures
            v == self.loaded_accounts_data_size_cost,
    {
        self.loaded_accounts_data_size_cost
    }

    /// The `signature_cost` field.
    pub fn signature_cost(&self) -> (v: u64)
        ensures
            v == self.signature_cost,
    {
        self.signature_cost
    }

    /// The `write_lock_cost` field.
    pub fn write_lock_cost(&self) -> (v: u64)
        ensures
            v == self.write_lock_cost,
    {
        self.write_lock_cost
    }
}

} // verus!
