use agave_runtime::transaction_cost::TransactionCost;

fn cost(
    signature_cost: u64,
    write_lock_cost: u64,
    data_bytes_cost: u16,
    programs_execution_cost: u64,
    loaded_accounts_data_size_cost: u64,
) -> TransactionCost {
    TransactionCost {
        signature_cost,
        write_lock_cost,
        data_bytes_cost,
        programs_execution_cost,
        loaded_accounts_data_size_cost,
        allocated_accounts_data_size: 77,
    }
}

#[test]
fn sum_adds_the_cost_components() {
    // the expected non-vote cost with the builtin vote program cost (3,000 CUs)
    let c = cost(1440, 600, 19, 3_000, 16384);
    assert_eq!(c.sum(), 1440 + 600 + 19 + 3_000 + 16384);
    let c = cost(1440, 600, 19, 200_000, 16384);
    assert_eq!(c.sum(), 218_443);
}

#[test]
fn sum_saturates() {
    let c = cost(u64::MAX - 5, 3, 2, 1, 0);
    assert_eq!(c.sum(), u64::MAX);
    let c = cost(u64::MAX - 6, 3, 2, 1, 0);
    assert_eq!(c.sum(), u64::MAX);
    let c = cost(u64::MAX - 7, 3, 2, 1, 0);
    assert_eq!(c.sum(), u64::MAX - 1);
    let c = cost(0, 0, 0, u64::MAX, u64::MAX);
    assert_eq!(c.sum(), u64::MAX);
}

#[test]
fn getters_return_the_fields() {
    let c = cost(1, 2, 3, 4, 5);
    assert_eq!(c.signature_cost(), 1);
    assert_eq!(c.write_lock_cost(), 2);
    assert_eq!(c.data_bytes_cost(), 3);
    assert_eq!(c.programs_execution_cost(), 4);
    assert_eq!(c.loaded_accounts_data_size_cost(), 5);
    assert_eq!(c.allocated_accounts_data_size(), 77);
    assert_eq!(c.sum(), 15);
}
