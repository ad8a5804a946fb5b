//! Selection of the accounts that a transaction message may write.
use vstd::prelude::*;

verus! {

/// The keys whose flag is set, in their order.
pub open spec fn writable_selection<K>(account_keys: Seq<K>, is_writable: Seq<bool>) -> Seq<K>
    decreases account_keys.len(),
{
    if account_keys.len() == 0 {
        Seq::empty()
    } else {
        let rest = writable_selection(account_keys.drop_last(), is_writable);
        if is_writable[account_keys.len() - 1] {
            rest.push(account_keys.last())
        } else {
            rest
        }
    }
}

/// The number of set flags among the first `i` flags.
pub open spec fn set_flags_before(is_writable: Seq<bool>, i: int) -> nat {
    is_writable.subrange(0, i).filter(|flag: bool| flag).len()
}

proof fn lemma_set_flags_step(is_writable: Seq<bool>, i: int)
    requires
        0 <= i < is_writable.len(),
    ensures
        set_flags_before(is_writable, i + 1) == set_flags_before(is_writable, i) + if is_writable[i] {
            1int
        } else {
            0int
        },
{
    let pred = |flag: bool| flag;
    assert(is_writable.subrange(0, i + 1) =~= is_writable.subrange(0, i).push(is_writable[i]));
    is_writable.subrange(0, i).lemma_filter_len_push(pred, is_writable[i]);
}

proof fn lemma_set_flags_monotone(is_writable: Seq<bool>, i: int, j: int)
    requires
        0 <= i <= j <= is_writable.len(),
    ensures
        set_flags_before(is_writable, i) <= set_flags_before(is_writable, j),
    decreases j - i,
{
    if i < j {
        lemma_set_flags_monotone(is_writable, i, j - 1);
        lemma_set_flags_step(is_writable, j - 1);
    }
}

/// Law: the writable selection keeps exactly the keys whose flag is set, in
/// order: it has one element per set flag, and the key at index `i`, when
/// its flag is set, is at the position given by the number of set flags
/// before `i`.
pub proof fn lemma_writable_selection_filters<K>(account_keys: Seq<K>, is_writable: Seq<bool>)
    requires
        account_keys.len() <= is_writable.len(),
    ensures
        writable_selection(account_keys, is_writable).len() == set_flags_before(
            is_writable,
            account_keys.len() as int,
        ),
        forall|i: int|
            0 <= i < account_keys.len() && is_writable[i] ==> #[trigger] writable_selection(
                account_keys,
                is_writable,
            )[set_flags_before(is_writable, i) as int] == account_keys[i],
    decreases account_keys.len(),
{
    let n = account_keys.len() as int;
    if n == 0 {
        assert(is_writable.subrange(0, 0) =~= Seq::<bool>::empty());
        reveal(Seq::filter);
    } else {
        let prefix = account_keys.drop_last();
        lemma_writable_selection_filters(prefix, is_writable);
        lemma_set_flags_step(is_writable, n - 1);
        let rest = writable_selection(prefix, is_writable);
        let sel = writable_selection(account_keys, is_writable);
        assert forall|i: int| 0 <= i < n && is_writable[i] implies #[trigger] sel[set_flags_before(
            is_writable,
            i,
        ) as int] == account_keys[i] by {
            if i < n - 1 {
                lemma_set_flags_step(is_writable, i);
                lemma_set_flags_monotone(is_writable, i + 1, n - 1);
                assert(rest[set_flags_before(is_writable, i) as int] == prefix[i]);
            }
        }
    }
}

/// The accounts of a message that are writable: `account_keys[i]` is kept
/// exactly when `is_writable[i]`, the message's answer for index `i`, holds.
pub fn writable_accounts<K: Copy>(account_keys: &[K], is_writable: &[bool]) -> (writable: Vec<K>)
    requires
        is_writable@.len() == account_keys@.len(),
    ensures
        writable@ == writable_selection(account_keys@, is_writable@),
        writable@.len() == is_writable@.filter(|flag: bool| flag).len(),
        forall|i: int|
            0 <= i < account_keys@.len() && is_writable@[i] ==> #[trigger] writable@[set_flags_before(
                is_writable@,
                i,
            ) as int] == account_keys@[i],
{
    let mut writable: Vec<K> = Vec::new();
    let mut index: usize = 0;
    while index < account_keys.len()
        invariant
            index <= account_keys@.len(),
            is_writable@.len() == account_keys@.len(),
            writable@ == writable_selection(account_keys@.subrange(0, index as int), is_writable@),
        decreases account_keys@.len() - index,
    {
        let ghost prefix = account_keys@.subrange(0, index as int);
        let ghost next = account_keys@.subrange(0, index + 1);
        assert(next.drop_last() =~= prefix);
        if is_writable[index] {
            writable.push(account_keys[index]);
        }
        index = index + 1;
    }
    assert(account_keys@.subrange(0, account_keys@.len() as int) =~= account_keys@);
    proof {
        lemma_writable_selection_filters(account_keys@, is_writable@);
        assert(is_writable@.subrange(0, is_writable@.len() as int) =~= is_writable@);
    }
    writable
}

} // verus!
