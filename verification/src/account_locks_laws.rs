//! What batches of lock requests can rely on.
use crate::account_locks::{AccountLocks, KeyLock, LockTable, TransactionLockError};
use vstd::prelude::*;

verus! {

/// The keys of each accepted transaction of a batch, in order.
pub open spec fn accepted_lists(
    table: LockTable,
    batch: Seq<Result<Vec<KeyLock>, TransactionLockError>>,
) -> Seq<Seq<KeyLock>>
    decreases batch.len(),
{
    if batch.len() == 0 {
        seq![]
    } else {
        let earlier = accepted_lists(table, batch.drop_last());
        match batch.last() {
            Ok(keys) if crate::account_locks::batch_outcome(table, batch.last())
                is Ok => earlier.push(keys@),
            _ => earlier,
        }
    }
}

/// How often an account occurs among several lists for the given sort of lock.
pub open spec fn total(lists: Seq<Seq<KeyLock>>, key: Seq<u8>, writable: bool) -> int
    decreases lists.len(),
{
    if lists.len() == 0 {
        0
    } else {
        total(lists.drop_last(), key, writable) + crate::account_locks::occurrences(
            lists.last(),
            key,
            writable,
        )
    }
}

proof fn lemma_total_accepted(
    table: LockTable,
    batch: Seq<Result<Vec<KeyLock>, TransactionLockError>>,
    key: Seq<u8>,
    writable: bool,
)
    ensures
        total(accepted_lists(table, batch), key, writable) == crate::account_locks::occurrences(
            crate::account_locks::accepted_keys(table, batch),
            key,
            writable,
        ),
    decreases batch.len(),
{
    if batch.len() > 0 {
        let shorter = batch.drop_last();
        let lists = accepted_lists(table, shorter);
        let earlier = crate::account_locks::accepted_keys(table, shorter);
        lemma_total_accepted(table, shorter, key, writable);
        if let Ok(keys) = batch.last() {
            if crate::account_locks::all_free(table, keys@) {
                crate::account_locks::lemma_occurrences_concat(earlier, keys@, key, writable);
                assert(lists.push(keys@).drop_last() =~= lists);
            }
        }
    }
}

proof fn lemma_total_remove(lists: Seq<Seq<KeyLock>>, i: int, key: Seq<u8>, writable: bool)
    requires
        0 <= i < lists.len(),
    ensures
        total(lists, key, writable) == total(lists.remove(i), key, writable)
            + crate::account_locks::occurrences(lists[i], key, writable),
    decreases lists.len(),
{
    if i == lists.len() - 1 {
        assert(lists.remove(i) =~= lists.drop_last());
    } else {
        lemma_total_remove(lists.drop_last(), i, key, writable);
        assert(lists.remove(i).drop_last() =~= lists.drop_last().remove(i));
        assert(lists.remove(i).last() == lists.last());
    }
}

proof fn lemma_total_in_any_order(
    one: Seq<Seq<KeyLock>>,
    other: Seq<Seq<KeyLock>>,
    key: Seq<u8>,
    writable: bool,
)
    requires
        one.to_multiset() == other.to_multiset(),
    ensures
        total(one, key, writable) == total(other, key, writable),
    decreases one.len(),
{
    broadcast use vstd::seq_lib::group_to_multiset_ensures;

    assert(one.len() == one.to_multiset().len() && other.len() == other.to_multiset().len());
    if one.len() > 0 {
        let end = one.len() - 1;
        let last = one[end];
        assert(one.contains(last));
        assert(one.to_multiset().count(last) > 0);
        assert(other.contains(last));
        let i = choose|i: int| 0 <= i < other.len() && other[i] == last;
        assert(one.remove(end) =~= one.drop_last());
        assert(one.drop_last().to_multiset() == one.to_multiset().remove(last));
        assert(other.remove(i).to_multiset() == other.to_multiset().remove(last));
        lemma_total_in_any_order(one.drop_last(), other.remove(i), key, writable);
        lemma_total_remove(other, i, key, writable);
    }
}

/// The tables that releasing one list after the other leads through.
pub open spec fn released_in_turn(tables: Seq<LockTable>, order: Seq<Seq<KeyLock>>) -> bool {
    &&& tables.len() == order.len() + 1
    &&& forall|i: int|
        0 <= i < order.len() ==> crate::account_locks::locked_on_top(
            tables[i + 1],
            tables[i],
            #[trigger] order[i],
        )
}

proof fn lemma_released(
    tables: Seq<LockTable>,
    order: Seq<Seq<KeyLock>>,
    n: int,
    key: Seq<u8>,
)
    requires
        released_in_turn(tables, order),
        0 <= n <= order.len(),
    ensures
        crate::account_locks::held(tables[0].reads, key) == crate::account_locks::held(
            tables[n].reads,
            key,
        ) + total(order.subrange(0, n), key, false),
        crate::account_locks::held(tables[0].writes, key) == crate::account_locks::held(
            tables[n].writes,
            key,
        ) + total(order.subrange(0, n), key, true),
    decreases n,
{
    if n > 0 {
        lemma_released(tables, order, n - 1, key);
        assert(order.subrange(0, n).drop_last() =~= order.subrange(0, n - 1));
        let keys = order[n - 1];
        assert(crate::account_locks::locked_on_top(tables[n], tables[n - 1], keys));
        assert(crate::account_locks::held(tables[n - 1].reads, key) >= 0);
        assert(crate::account_locks::held(tables[n - 1].writes, key) >= 0);
    }
}

proof fn lemma_total_grows(
    order: Seq<Seq<KeyLock>>,
    n: int,
    key: Seq<u8>,
    writable: bool,
)
    requires
        0 <= n <= order.len(),
    ensures
        total(order.subrange(0, n), key, writable) <= total(order, key, writable),
    decreases order.len() - n,
{
    if n == order.len() {
        assert(order.subrange(0, n) =~= order);
    } else {
        lemma_total_grows(order, n + 1, key, writable);
        assert(order.subrange(0, n + 1).drop_last() =~= order.subrange(0, n));
        crate::account_locks::lemma_occurrences_bound(order[n], key, writable);
    }
}

/// Releasing the locks of every accepted transaction of a batch, once each and in any order, is
/// possible step by step and leaves the locks as they were before the batch.
pub proof fn law_unlocking_a_batch_restores(
    before: LockTable,
    batch: Seq<Result<Vec<KeyLock>, TransactionLockError>>,
    tables: Seq<LockTable>,
    order: Seq<Seq<KeyLock>>,
)
    requires
        crate::account_locks::no_zeros(before.reads),
        crate::account_locks::no_zeros(before.writes),
        released_in_turn(tables, order),
        crate::account_locks::locked_on_top(
            before,
            tables[0],
            crate::account_locks::accepted_keys(before, batch),
        ),
        order.to_multiset() == accepted_lists(before, batch).to_multiset(),
        crate::account_locks::no_zeros(tables.last().reads),
        crate::account_locks::no_zeros(tables.last().writes),
    ensures
        forall|i: int|
            0 <= i < order.len() ==> crate::account_locks::all_held(
                tables[i],
                #[trigger] order[i],
            ),
        tables.last() == before,
{
    let lists = accepted_lists(before, batch);
    let all = crate::account_locks::accepted_keys(before, batch);
    let after = tables.last();
    assert forall|i: int| 0 <= i < order.len() implies crate::account_locks::all_held(
        tables[i],
        #[trigger] order[i],
    ) by {
        assert forall|key: Seq<u8>|
            #![trigger crate::account_locks::held(tables[i].reads, key)]
            #![trigger crate::account_locks::held(tables[i].writes, key)]
            crate::account_locks::occurrences(order[i], key, false)
                <= crate::account_locks::held(tables[i].reads, key)
                && crate::account_locks::occurrences(order[i], key, true)
                <= crate::account_locks::held(tables[i].writes, key) by {
            lemma_batch_total(before, batch, tables[0], order, key);
            lemma_released(tables, order, i, key);
            lemma_total_grows(order, i + 1, key, false);
            lemma_total_grows(order, i + 1, key, true);
            assert(order.subrange(0, i + 1).drop_last() =~= order.subrange(0, i));
            assert(crate::account_locks::held(before.reads, key) >= 0);
            assert(crate::account_locks::held(before.writes, key) >= 0);
        }
    }
    assert(order.subrange(0, order.len() as int) =~= order);
    assert forall|key: Seq<u8>|
        #![trigger crate::account_locks::held(after.reads, key)]
        crate::account_locks::held(after.reads, key) == crate::account_locks::held(
            before.reads,
            key,
        ) by {
        lemma_batch_total(before, batch, tables[0], order, key);
        lemma_released(tables, order, order.len() as int, key);
    }
    assert forall|key: Seq<u8>|
        #![trigger crate::account_locks::held(after.writes, key)]
        crate::account_locks::held(after.writes, key) == crate::account_locks::held(
            before.writes,
            key,
        ) by {
        lemma_batch_total(before, batch, tables[0], order, key);
        lemma_released(tables, order, order.len() as int, key);
    }
    crate::account_locks::lemma_same_table(after, before);
}

proof fn lemma_batch_total(
    before: LockTable,
    batch: Seq<Result<Vec<KeyLock>, TransactionLockError>>,
    locked: LockTable,
    order: Seq<Seq<KeyLock>>,
    key: Seq<u8>,
)
    requires
        crate::account_locks::locked_on_top(
            before,
            locked,
            crate::account_locks::accepted_keys(before, batch),
        ),
        order.to_multiset() == accepted_lists(before, batch).to_multiset(),
    ensures
        crate::account_locks::held(locked.reads, key) == crate::account_locks::held(
            before.reads,
            key,
        ) + total(order, key, false),
        crate::account_locks::held(locked.writes, key) == crate::account_locks::held(
            before.writes,
            key,
        ) + total(order, key, true),
{
    let lists = accepted_lists(before, batch);
    lemma_total_in_any_order(order, lists, key, false);
    lemma_total_in_any_order(order, lists, key, true);
    lemma_total_accepted(before, batch, key, false);
    lemma_total_accepted(before, batch, key, true);
}

/// The key lists of some transactions of a batch.
pub open spec fn lists_at(
    batch: Seq<Result<Vec<KeyLock>, TransactionLockError>>,
    order: Seq<int>,
) -> Seq<Seq<KeyLock>> {
    Seq::new(order.len(), |j: int| batch[order[j]]->Ok_0@)
}

/// An order of the transactions of a batch that were accepted, each once.
pub open spec fn is_order_of_accepted(
    table: LockTable,
    batch: Seq<Result<Vec<KeyLock>, TransactionLockError>>,
    order: Seq<int>,
) -> bool {
    &&& order.no_duplicates()
    &&& forall|i: int| #[trigger]
        order.contains(i) <==> 0 <= i < batch.len() && crate::account_locks::batch_outcome(
            table,
            batch[i],
        ) is Ok
}

proof fn lemma_accepted_in_order(
    table: LockTable,
    batch: Seq<Result<Vec<KeyLock>, TransactionLockError>>,
    order: Seq<int>,
)
    requires
        is_order_of_accepted(table, batch, order),
    ensures
        lists_at(batch, order).to_multiset() == accepted_lists(table, batch).to_multiset(),
    decreases batch.len(),
{
    broadcast use vstd::seq_lib::group_to_multiset_ensures;

    let lists = lists_at(batch, order);
    if batch.len() == 0 {
        if order.len() > 0 {
            assert(order.contains(order[0]));
        }
        assert(lists =~= accepted_lists(table, batch));
    } else {
        let shorter = batch.drop_last();
        let last = batch.len() - 1;
        assert(batch.last() == batch[last]);
        if crate::account_locks::batch_outcome(table, batch[last]) is Ok {
            assert(order.contains(last));
            let p = choose|p: int| 0 <= p < order.len() && order[p] == last;
            let rest = order.remove(p);
            assert forall|j: int| 0 <= j < rest.len() implies #[trigger] rest[j] == order[if j < p {
                j
            } else {
                j + 1
            }] by {}
            assert forall|i: int| #[trigger]
                rest.contains(i) <==> 0 <= i < shorter.len()
                    && crate::account_locks::batch_outcome(table, shorter[i]) is Ok by {
                if rest.contains(i) {
                    let j = choose|j: int| 0 <= j < rest.len() && rest[j] == i;
                    assert(rest[j] == i);
                    assert(order.contains(i));
                    assert(shorter[i] == batch[i]);
                }
                if 0 <= i < shorter.len() && crate::account_locks::batch_outcome(
                    table,
                    shorter[i],
                ) is Ok {
                    assert(shorter[i] == batch[i]);
                    assert(order.contains(i));
                    let j = choose|j: int| 0 <= j < order.len() && order[j] == i;
                    if j < p {
                        assert(rest[j] == i);
                    } else {
                        assert(rest[j - 1] == i);
                    }
                }
            }
            assert(rest.no_duplicates());
            lemma_accepted_in_order(table, shorter, rest);
            assert forall|j: int| 0 <= j < rest.len() implies shorter[#[trigger] rest[j]]
                == batch[rest[j]] by {
                assert(rest.contains(rest[j]));
            }
            assert(lists_at(shorter, rest) =~= lists.remove(p));
            let keys = batch[last]->Ok_0@;
            assert(lists[p] == keys);
            assert(lists.contains(keys));
            assert(lists.to_multiset().count(keys) > 0);
            assert(lists.remove(p).to_multiset() == lists.to_multiset().remove(keys));
            assert(lists.to_multiset() =~= lists.remove(p).to_multiset().insert(keys));
            assert(accepted_lists(table, batch) == accepted_lists(table, shorter).push(keys));
        } else {
            assert forall|i: int| #[trigger]
                order.contains(i) <==> 0 <= i < shorter.len()
                    && crate::account_locks::batch_outcome(table, shorter[i]) is Ok by {
                if 0 <= i < shorter.len() {
                    assert(shorter[i] == batch[i]);
                }
            }
            lemma_accepted_in_order(table, shorter, order);
            assert forall|j: int| 0 <= j < order.len() implies shorter[#[trigger] order[j]]
                == batch[order[j]] by {
                assert(order.contains(order[j]));
            }
            assert(lists_at(shorter, order) =~= lists);
        }
    }
}

/// Calls of `unlock_accounts`, one for each transaction of a batch that `try_lock_transaction_batch`
/// accepted, in any order, release only locks that are held, and leave the locks as they were before
/// the batch. `states` are the locks after the batch and after each of the calls.
pub proof fn law_unlock_calls_restore(
    before: AccountLocks,
    batch: Seq<Result<Vec<KeyLock>, TransactionLockError>>,
    states: Seq<AccountLocks>,
    order: Seq<int>,
)
    requires
        before.valid(),
        is_order_of_accepted(before@, batch, order),
        states.len() == order.len() + 1,
        crate::account_locks::locked_on_top(
            before@,
            states[0]@,
            crate::account_locks::accepted_keys(before@, batch),
        ),
        forall|j: int|
            0 <= j < order.len() ==> crate::account_locks::locked_on_top(
                states[j + 1]@,
                states[j]@,
                batch[#[trigger] order[j]]->Ok_0@,
            ),
        states.last().valid(),
    ensures
        forall|j: int|
            0 <= j < order.len() ==> crate::account_locks::all_held(
                states[j]@,
                batch[#[trigger] order[j]]->Ok_0@,
            ),
        states.last()@ == before@,
{
    let tables = Seq::new(states.len(), |j: int| states[j]@);
    let lists = lists_at(batch, order);
    lemma_accepted_in_order(before@, batch, order);
    assert forall|j: int| 0 <= j < lists.len() implies crate::account_locks::locked_on_top(
        tables[j + 1],
        tables[j],
        #[trigger] lists[j],
    ) by {
        assert(lists[j] == batch[order[j]]->Ok_0@);
    }
    law_unlocking_a_batch_restores(before@, batch, tables, lists);
    assert forall|j: int| 0 <= j < order.len() implies crate::account_locks::all_held(
        states[j]@,
        batch[#[trigger] order[j]]->Ok_0@,
    ) by {
        assert(crate::account_locks::all_held(tables[j], lists[j]));
    }
}

/// The same number of locks of each sort on every account.
pub open spec fn same_counts(one: LockTable, other: LockTable) -> bool {
    forall|key: Seq<u8>|
        #![trigger crate::account_locks::held(one.reads, key)]
        #![trigger crate::account_locks::held(one.writes, key)]
        #![trigger crate::account_locks::held(other.reads, key)]
        #![trigger crate::account_locks::held(other.writes, key)]
        crate::account_locks::held(one.reads, key) == crate::account_locks::held(other.reads, key)
            && crate::account_locks::held(one.writes, key) == crate::account_locks::held(
            other.writes,
            key,
        )
}

proof fn lemma_same_acceptance(
    one: LockTable,
    other: LockTable,
    batch: Seq<Result<Vec<KeyLock>, TransactionLockError>>,
)
    requires
        same_counts(one, other),
    ensures
        crate::account_locks::accepted_keys(one, batch) == crate::account_locks::accepted_keys(
            other,
            batch,
        ),
    decreases batch.len(),
{
    if batch.len() > 0 {
        lemma_same_acceptance(one, other, batch.drop_last());
        if let Ok(keys) = batch.last() {
            lemma_same_freedom(one, other, keys@);
        }
    }
}

proof fn lemma_same_freedom(one: LockTable, other: LockTable, keys: Seq<KeyLock>)
    requires
        same_counts(one, other),
    ensures
        crate::account_locks::all_free(one, keys) == crate::account_locks::all_free(other, keys),
{
    assert forall|i: int| 0 <= i < keys.len() implies #[trigger] crate::account_locks::free_for(
        one,
        keys[i],
    ) == crate::account_locks::free_for(other, keys[i]) by {
        assert(crate::account_locks::held(one.reads, keys[i].0@) >= 0);
    }
    if crate::account_locks::all_free(one, keys) {
        assert forall|i: int| 0 <= i < keys.len() implies #[trigger] crate::account_locks::free_for(
            other,
            keys[i],
        ) by {
            assert(crate::account_locks::free_for(one, keys[i]));
        }
    }
}

/// The two sorts of account locks agree: where they hold the same locks, a batch gets the same
/// answers from both, and they hold the same locks afterwards. The locks on an account grow by the
/// number of times that the accepted transactions list it; a refused transaction takes none.
pub proof fn law_lock_types_agree(
    one: LockTable,
    other: LockTable,
    one_after: LockTable,
    other_after: LockTable,
    batch: Seq<Result<Vec<KeyLock>, TransactionLockError>>,
)
    requires
        same_counts(one, other),
        crate::account_locks::locked_on_top(
            one,
            one_after,
            crate::account_locks::accepted_keys(one, batch),
        ),
        crate::account_locks::locked_on_top(
            other,
            other_after,
            crate::account_locks::accepted_keys(other, batch),
        ),
    ensures
        forall|i: int|
            0 <= i < batch.len() ==> crate::account_locks::batch_outcome(
                one,
                #[trigger] batch[i],
            ) == crate::account_locks::batch_outcome(other, batch[i]),
        same_counts(one_after, other_after),
        forall|key: Seq<u8>|
            #![trigger crate::account_locks::held(one_after.reads, key)]
            #![trigger crate::account_locks::held(one_after.writes, key)]
            crate::account_locks::held(one_after.reads, key) == crate::account_locks::held(
                one.reads,
                key,
            ) + total(accepted_lists(one, batch), key, false) && crate::account_locks::held(
                one_after.writes,
                key,
            ) == crate::account_locks::held(one.writes, key) + total(
                accepted_lists(one, batch),
                key,
                true,
            ),
{
    lemma_same_acceptance(one, other, batch);
    assert forall|i: int| 0 <= i < batch.len() implies crate::account_locks::batch_outcome(
        one,
        #[trigger] batch[i],
    ) == crate::account_locks::batch_outcome(other, batch[i]) by {
        if let Ok(keys) = batch[i] {
            lemma_same_freedom(one, other, keys@);
        }
    }
    assert forall|key: Seq<u8>|
        #![trigger crate::account_locks::held(one_after.reads, key)]
        #![trigger crate::account_locks::held(one_after.writes, key)]
        #![trigger crate::account_locks::held(other_after.reads, key)]
        #![trigger crate::account_locks::held(other_after.writes, key)]
        crate::account_locks::held(one_after.reads, key) == crate::account_locks::held(
            other_after.reads,
            key,
        ) && crate::account_locks::held(one_after.writes, key) == crate::account_locks::held(
            other_after.writes,
            key,
        ) by {
        assert(crate::account_locks::held(one.reads, key) >= 0);
        assert(crate::account_locks::held(one_after.reads, key) >= 0);
        assert(crate::account_locks::held(other_after.reads, key) >= 0);
    }
    assert forall|key: Seq<u8>|
        #![trigger crate::account_locks::held(one_after.reads, key)]
        #![trigger crate::account_locks::held(one_after.writes, key)]
        crate::account_locks::held(one_after.reads, key) == crate::account_locks::held(
            one.reads,
            key,
        ) + total(accepted_lists(one, batch), key, false) && crate::account_locks::held(
            one_after.writes,
            key,
        ) == crate::account_locks::held(one.writes, key) + total(
            accepted_lists(one, batch),
            key,
            true,
        ) by {
        lemma_total_accepted(one, batch, key, false);
        lemma_total_accepted(one, batch, key, true);
    }
}

/// An account can be locked for reading exactly where nobody has it locked for writing, however many
/// read it, and for writing exactly where nobody has it locked at all.
pub proof fn law_readers_share_and_writers_do_not(table: LockTable, key: [u8; 32])
    ensures
        crate::account_locks::free_for(table, (key, false)) <==> crate::account_locks::held(
            table.writes,
            key@,
        ) == 0,
        crate::account_locks::free_for(table, (key, true)) <==> crate::account_locks::held(
            table.writes,
            key@,
        ) == 0 && crate::account_locks::held(table.reads, key@) == 0,
{
}

/// What becomes of a transaction of a batch: one that was rejected before stays so, for the same
/// reason; another one is in conflict exactly where one of its accounts is locked in a way that
/// excludes the lock asked for, and is accepted otherwise.
pub proof fn law_batch_answers(
    table: LockTable,
    request: Result<Vec<KeyLock>, TransactionLockError>,
)
    ensures
        ({
            let outcome = crate::account_locks::batch_outcome(table, request);
            match request {
                Err(reason) => outcome == Err::<(), TransactionLockError>(reason),
                Ok(keys) => {
                    let conflict = exists|i: int|
                        #![trigger keys@[i]]
                        0 <= i < keys@.len() && (crate::account_locks::held(
                            table.writes,
                            keys@[i].0@,
                        ) != 0 || keys@[i].1 && crate::account_locks::held(
                            table.reads,
                            keys@[i].0@,
                        ) != 0);
                    &&& conflict ==> outcome == Err::<(), TransactionLockError>(
                        TransactionLockError::AccountInUse,
                    )
                    &&& !conflict ==> outcome == Ok::<(), TransactionLockError>(())
                },
            }
        }),
{
    if let Ok(keys) = request {
        if crate::account_locks::all_free(table, keys@) {
            assert forall|i: int|
                #![trigger keys@[i]]
                0 <= i < keys@.len() implies crate::account_locks::held(
                table.writes,
                keys@[i].0@,
            ) == 0 && (keys@[i].1 ==> crate::account_locks::held(table.reads, keys@[i].0@)
                == 0) by {
                assert(crate::account_locks::free_for(table, keys@[i]));
            }
        } else {
            let i = choose|i: int|
                0 <= i < keys@.len() && !crate::account_locks::free_for(table, keys@[i]);
            assert(0 <= i < keys@.len() && !crate::account_locks::free_for(table, keys@[i]));
            let lock = keys@[i];
        }
    }
}

/// How often an account is listed, for one sort of lock: once more for each entry that names it so,
/// and no more for any other.
pub proof fn law_listing_is_counted(keys: Seq<KeyLock>, lock: KeyLock, key: Seq<u8>, writable: bool)
    ensures
        crate::account_locks::occurrences(Seq::<KeyLock>::empty(), key, writable) == 0,
        lock.0@ == key && lock.1 == writable ==> crate::account_locks::occurrences(
            keys.push(lock),
            key,
            writable,
        ) == crate::account_locks::occurrences(keys, key, writable) + 1,
        lock.0@ != key || lock.1 != writable ==> crate::account_locks::occurrences(
            keys.push(lock),
            key,
            writable,
        ) == crate::account_locks::occurrences(keys, key, writable),
{
    assert(keys.push(lock).drop_last() =~= keys);
}

/// Taking a list of locks adds to the locks on each account as often as the list names it for that
/// sort, and to no others.
pub proof fn law_locks_are_taken_as_listed(
    before: LockTable,
    after: LockTable,
    keys: Seq<KeyLock>,
    key: Seq<u8>,
)
    requires
        crate::account_locks::locked_on_top(before, after, keys),
    ensures
        crate::account_locks::held(after.reads, key) - crate::account_locks::held(before.reads, key)
            == crate::account_locks::occurrences(keys, key, false),
        crate::account_locks::held(after.writes, key) - crate::account_locks::held(
            before.writes,
            key,
        ) == crate::account_locks::occurrences(keys, key, true),
{
    assert(crate::account_locks::held(after.reads, key) >= 0);
}

/// One transaction can be locked by itself exactly where each of its locks can be taken beside those
/// held, and no account that it locks for writing is listed by it a second time.
pub proof fn law_one_transaction_is_lockable(table: LockTable, keys: Seq<KeyLock>)
    ensures
        crate::account_locks::lockable_in_turn(table, keys) <==> {
            &&& forall|i: int|
                #![trigger keys[i]]
                0 <= i < keys.len() ==> crate::account_locks::held(table.writes, keys[i].0@) == 0
                    && (keys[i].1 ==> crate::account_locks::held(table.reads, keys[i].0@) == 0)
            &&& forall|i: int, j: int|
                #![trigger keys[i], keys[j]]
                0 <= i < keys.len() && 0 <= j < keys.len() && i != j && keys[i].0@ == keys[j].0@
                    ==> !keys[i].1
        },
{
    if crate::account_locks::lockable_in_turn(table, keys) {
        assert forall|i: int|
            #![trigger keys[i]]
            0 <= i < keys.len() implies crate::account_locks::held(table.writes, keys[i].0@) == 0
            && (keys[i].1 ==> crate::account_locks::held(table.reads, keys[i].0@) == 0) by {
            assert(crate::account_locks::free_for(table, keys[i]));
        }
        assert forall|i: int, j: int|
            #![trigger keys[i], keys[j]]
            0 <= i < keys.len() && 0 <= j < keys.len() && i != j && keys[i].0@
                == keys[j].0@ implies !keys[i].1 by {
            if i < j {
                assert(!keys[i].1 && !keys[j].1);
            } else {
                assert(!keys[j].1 && !keys[i].1);
            }
        }
    }
    if (forall|i: int|
        #![trigger keys[i]]
        0 <= i < keys.len() ==> crate::account_locks::held(table.writes, keys[i].0@) == 0 && (
        keys[i].1 ==> crate::account_locks::held(table.reads, keys[i].0@) == 0)) && (forall|
        i: int,
        j: int,
    |
        #![trigger keys[i], keys[j]]
        0 <= i < keys.len() && 0 <= j < keys.len() && i != j && keys[i].0@ == keys[j].0@
            ==> !keys[i].1) {
        assert forall|i: int| 0 <= i < keys.len() implies #[trigger] crate::account_locks::free_for(
            table,
            keys[i],
        ) by {
            let lock = keys[i];
        }
        assert forall|i: int, j: int|
            #![trigger keys[i], keys[j]]
            0 <= i < j < keys.len() && keys[i].0@ == keys[j].0@ implies !keys[i].1
            && !keys[j].1 by {}
    }
}

/// A key is repeated exactly where it stands at two places.
pub proof fn law_repetition(keys: Seq<Seq<u8>>, i: int, j: int)
    ensures
        0 <= i < keys.len() && 0 <= j < keys.len() && i != j && keys[i] == keys[j]
            ==> crate::account_locks::repeats(keys),
        keys.no_duplicates() <==> !crate::account_locks::repeats(keys),
{
    if 0 <= i < keys.len() && 0 <= j < keys.len() && i != j && keys[i] == keys[j] {
        if i < j {
            assert(keys[i] == keys[j]);
        } else {
            assert(keys[j] == keys[i]);
        }
    }
    if !keys.no_duplicates() {
        let (a, b) = choose|a: int, b: int|
            0 <= a < keys.len() && 0 <= b < keys.len() && a != b && keys[a] == keys[b];
        if a < b {
            assert(keys[a] == keys[b]);
        } else {
            assert(keys[b] == keys[a]);
        }
    }
}

/// More accounts than the limit are refused before anything else; within the limit a repeated account
/// is refused, and everything else accepted.
pub proof fn law_accounts_are_checked(keys: Seq<Seq<u8>>, limit: usize)
    ensures
        ({
            let answer = crate::account_locks::accounts_answer(keys, limit);
            &&& keys.len() > limit <==> answer == Err::<(), TransactionLockError>(
                TransactionLockError::TooManyAccountLocks,
            )
            &&& keys.len() <= limit && !keys.no_duplicates() <==> answer == Err::<
                (),
                TransactionLockError,
            >(TransactionLockError::AccountLoadedTwice)
            &&& keys.len() <= limit && keys.no_duplicates() <==> answer is Ok
        }),
{
    law_repetition(keys, 0, 0);
}

} // verus!
