//! Read and write locks on accounts.
//!
//! A write lock excludes every other lock on the account; any number of read locks go together.
//! The transactions of one batch are checked against the locks held before the batch, not
//! against each other.
use crate::bytes::same_bytes;
use crate::lock_maps::{
    count_of, drop_count, drop_pair, insert_key, key_at, key_count, new_counts, new_key_set,
    new_pairs, pair_of, set_count, set_pair,
};
use ahash::AHashMap;
use dashmap::DashMap;
use solana_message::AccountKeys;
use vstd::prelude::*;

verus! {

#[verifier::external_type_specification]
#[verifier::external_body]
pub struct ExTransactionError(solana_transaction_error::TransactionError);

/// Why a transaction was not locked.
#[derive(Debug, PartialEq)]
pub enum TransactionLockError {
    /// An account is locked in a way that excludes the lock asked for.
    AccountInUse,
    /// An account occurs twice among a transaction's accounts.
    AccountLoadedTwice,
    /// The transaction has more accounts than may be locked.
    TooManyAccountLocks,
    /// The transaction was rejected before it came here.
    Other(solana_transaction_error::TransactionError),
}

/// An account and whether it is to be locked for writing.
pub type KeyLock = ([u8; 32], bool);

/// The locks held on each account, for reading and for writing; accounts without locks do not
/// occur.
#[verifier::ext_equal]
pub struct LockTable {
    pub reads: Map<Seq<u8>, u64>,
    pub writes: Map<Seq<u8>, u64>,
}

/// The number of locks of one sort on an account.
pub open spec fn held(locks: Map<Seq<u8>, u64>, key: Seq<u8>) -> int {
    if locks.contains_key(key) {
        locks[key] as int
    } else {
        0
    }
}

/// No account occurs with zero locks.
pub open spec fn no_zeros(locks: Map<Seq<u8>, u64>) -> bool {
    forall|key: Seq<u8>| #[trigger] locks.contains_key(key) ==> locks[key] > 0
}

/// How often an account occurs among `keys` for the given sort of lock.
pub open spec fn occurrences(keys: Seq<KeyLock>, key: Seq<u8>, writable: bool) -> int
    decreases keys.len(),
{
    if keys.len() == 0 {
        0
    } else {
        occurrences(keys.drop_last(), key, writable) + if keys.last().0@ == key && keys.last().1
            == writable {
            1int
        } else {
            0int
        }
    }
}

/// Whether one lock can be taken beside those in the table.
pub open spec fn free_for(table: LockTable, lock: KeyLock) -> bool {
    &&& held(table.writes, lock.0@) == 0
    &&& lock.1 ==> held(table.reads, lock.0@) == 0
}

/// Whether each of the locks can be taken beside those in the table.
pub open spec fn all_free(table: LockTable, keys: Seq<KeyLock>) -> bool {
    forall|i: int| 0 <= i < keys.len() ==> #[trigger] free_for(table, keys[i])
}

/// `after` holds the locks of `before` and, on top, those for `keys`.
pub open spec fn locked_on_top(before: LockTable, after: LockTable, keys: Seq<KeyLock>) -> bool {
    forall|key: Seq<u8>|
        #![trigger held(after.reads, key)]
        #![trigger held(after.writes, key)]
        held(after.reads, key) == held(before.reads, key) + occurrences(keys, key, false) && held(
            after.writes,
            key,
        ) == held(before.writes, key) + occurrences(keys, key, true)
}

/// The counts that taking the locks for `keys` leads to fit their type.
pub open spec fn counts_fit(table: LockTable, keys: Seq<KeyLock>) -> bool {
    forall|key: Seq<u8>|
        #![trigger held(table.reads, key)]
        #![trigger held(table.writes, key)]
        held(table.reads, key) + occurrences(keys, key, false) <= u64::MAX && held(
            table.writes,
            key,
        ) + occurrences(keys, key, true) <= u64::MAX
}

/// Each of the locks for `keys` is held.
pub open spec fn all_held(table: LockTable, keys: Seq<KeyLock>) -> bool {
    forall|key: Seq<u8>|
        #![trigger held(table.reads, key)]
        #![trigger held(table.writes, key)]
        occurrences(keys, key, false) <= held(table.reads, key) && occurrences(keys, key, true)
            <= held(table.writes, key)
}

proof fn lemma_occurrences_push(keys: Seq<KeyLock>, lock: KeyLock, key: Seq<u8>, writable: bool)
    ensures
        occurrences(keys.push(lock), key, writable) == occurrences(keys, key, writable) + if lock.0@
            == key && lock.1 == writable {
            1int
        } else {
            0int
        },
{
    assert(keys.push(lock).drop_last() =~= keys);
}

pub(crate) proof fn lemma_occurrences_bound(keys: Seq<KeyLock>, key: Seq<u8>, writable: bool)
    ensures
        0 <= occurrences(keys, key, writable) <= keys.len(),
    decreases keys.len(),
{
    if keys.len() > 0 {
        lemma_occurrences_bound(keys.drop_last(), key, writable);
    }
}

proof fn lemma_occurrences_prefix(keys: Seq<KeyLock>, n: int, key: Seq<u8>, writable: bool)
    requires
        0 <= n <= keys.len(),
    ensures
        0 <= occurrences(keys.subrange(0, n), key, writable) <= occurrences(keys, key, writable),
    decreases keys.len() - n,
{
    lemma_occurrences_bound(keys.subrange(0, n), key, writable);
    if n == keys.len() {
        assert(keys.subrange(0, n) =~= keys);
    } else {
        lemma_occurrences_prefix(keys, n + 1, key, writable);
        lemma_occurrences_push(keys.subrange(0, n), keys[n], key, writable);
        assert(keys.subrange(0, n).push(keys[n]) =~= keys.subrange(0, n + 1));
    }
}

/// Locks as two tables of counts, for one owner.
pub struct AccountLocks {
    pub write_locks: AHashMap<[u8; 32], u64>,
    pub readonly_locks: AHashMap<[u8; 32], u64>,
}

/// The keys of the accepted transactions of a batch, one behind the other.
pub open spec fn accepted_keys(
    table: LockTable,
    batch: Seq<Result<Vec<KeyLock>, TransactionLockError>>,
) -> Seq<KeyLock>
    decreases batch.len(),
{
    if batch.len() == 0 {
        seq![]
    } else {
        let earlier = accepted_keys(table, batch.drop_last());
        match batch.last() {
            Ok(keys) if all_free(table, keys@) => earlier + keys@,
            _ => earlier,
        }
    }
}

/// What becomes of one transaction of a batch: an earlier error stays, a conflict with the locks
/// in the table is `AccountInUse`, and everything else is locked.
pub open spec fn batch_outcome(
    table: LockTable,
    request: Result<Vec<KeyLock>, TransactionLockError>,
) -> Result<(), TransactionLockError> {
    match request {
        Ok(keys) => if all_free(table, keys@) {
            Ok(())
        } else {
            Err(TransactionLockError::AccountInUse)
        },
        Err(e) => Err(e),
    }
}

/// Adding one lock to a count.
proof fn lemma_count_up(locks: Map<Seq<u8>, u64>, key: Seq<u8>)
    requires
        no_zeros(locks),
        held(locks, key) < u64::MAX,
    ensures
        no_zeros(locks.insert(key, (held(locks, key) + 1) as u64)),
        forall|k: Seq<u8>|
            #[trigger] held(locks.insert(key, (held(locks, key) + 1) as u64), k) == held(locks, k)
                + if k == key {
                1int
            } else {
                0int
            },
{
}

/// The table after a count went down by one.
pub open spec fn counted_down(locks: Map<Seq<u8>, u64>, key: Seq<u8>) -> Map<Seq<u8>, u64> {
    if held(locks, key) == 1 {
        locks.remove(key)
    } else {
        locks.insert(key, (held(locks, key) - 1) as u64)
    }
}

proof fn lemma_count_down(locks: Map<Seq<u8>, u64>, key: Seq<u8>)
    requires
        no_zeros(locks),
        held(locks, key) > 0,
    ensures
        no_zeros(counted_down(locks, key)),
        forall|k: Seq<u8>| #[trigger]
            held(counted_down(locks, key), k) == held(locks, k) - if k == key {
                1int
            } else {
                0int
            },
{
}

/// One more lock on top of the locks for `keys`.
proof fn lemma_lock_step(
    before: LockTable,
    mid: LockTable,
    after: LockTable,
    keys: Seq<KeyLock>,
    lock: KeyLock,
)
    requires
        locked_on_top(before, mid, keys),
        locked_on_top(mid, after, seq![lock]),
    ensures
        locked_on_top(before, after, keys.push(lock)),
{
    assert forall|key: Seq<u8>|
        #![trigger held(after.reads, key)]
        #![trigger held(after.writes, key)]
        held(after.reads, key) == held(before.reads, key) + occurrences(
            keys.push(lock),
            key,
            false,
        ) && held(after.writes, key) == held(before.writes, key) + occurrences(
            keys.push(lock),
            key,
            true,
        ) by {
        lemma_occurrences_push(keys, lock, key, false);
        lemma_occurrences_push(keys, lock, key, true);
        lemma_single(lock, key);
        assert(held(mid.reads, key) == held(mid.reads, key));
        assert(held(mid.writes, key) == held(mid.writes, key));
    }
}

/// Occurrences in a list of one.
proof fn lemma_single(lock: KeyLock, key: Seq<u8>)
    ensures
        occurrences(seq![lock], key, false) == if lock.0@ == key && !lock.1 {
            1int
        } else {
            0int
        },
        occurrences(seq![lock], key, true) == if lock.0@ == key && lock.1 {
            1int
        } else {
            0int
        },
{
    lemma_occurrences_push(seq![], lock, key, false);
    lemma_occurrences_push(seq![], lock, key, true);
    assert(Seq::<KeyLock>::empty().push(lock) =~= seq![lock]);
}

/// One count went up by one.
proof fn lemma_locked_once(before: LockTable, after: LockTable, lock: KeyLock)
    requires
        forall|k: Seq<u8>| #[trigger]
            held(after.reads, k) == held(before.reads, k) + if k == lock.0@ && !lock.1 {
                1int
            } else {
                0int
            },
        forall|k: Seq<u8>| #[trigger]
            held(after.writes, k) == held(before.writes, k) + if k == lock.0@ && lock.1 {
                1int
            } else {
                0int
            },
    ensures
        locked_on_top(before, after, seq![lock]),
{
    assert forall|k: Seq<u8>|
        #![trigger held(after.reads, k)]
        #![trigger held(after.writes, k)]
        held(after.reads, k) == held(before.reads, k) + occurrences(seq![lock], k, false) && held(
            after.writes,
            k,
        ) == held(before.writes, k) + occurrences(seq![lock], k, true) by {
        lemma_single(lock, k);
    }
}

impl View for AccountLocks {
    type V = LockTable;

    open spec fn view(&self) -> LockTable {
        LockTable {
            reads: crate::lock_maps::counts_of(self.readonly_locks),
            writes: crate::lock_maps::counts_of(self.write_locks),
        }
    }
}

impl Default for AccountLocks {
    /// No locks.
    fn default() -> (locks: AccountLocks)
        ensures
            locks.valid(),
            locks@ == (LockTable {
                reads: Map::<Seq<u8>, u64>::empty(),
                writes: Map::<Seq<u8>, u64>::empty(),
            }),
    {
        let locks = AccountLocks { write_locks: new_counts(), readonly_locks: new_counts() };
        assert(locks@.reads =~= Map::<Seq<u8>, u64>::empty());
        assert(locks@.writes =~= Map::<Seq<u8>, u64>::empty());
        locks
    }
}

impl AccountLocks {
    /// Accounts without locks do not occur in the tables.
    pub open spec fn valid(&self) -> bool {
        &&& no_zeros(self@.reads)
        &&& no_zeros(self@.writes)
    }

    /// Whether an account is locked for reading.
    pub fn is_locked_readonly(&self, key: &[u8; 32]) -> (locked: bool)
        ensures
            locked == (held(self@.reads, key@) > 0),
    {
        match count_of(&self.readonly_locks, key) {
            Some(count) => count > 0,
            None => false,
        }
    }

    /// Whether an account is locked for writing.
    pub fn is_locked_write(&self, key: &[u8; 32]) -> (locked: bool)
        ensures
            locked == (held(self@.writes, key@) > 0),
    {
        match count_of(&self.write_locks, key) {
            Some(count) => count > 0,
            None => false,
        }
    }

    fn can_read_lock(&self, key: &[u8; 32]) -> (free: bool)
        ensures
            free == free_for(self@, (*key, false)),
    {
        !self.is_locked_write(key)
    }

    fn can_write_lock(&self, key: &[u8; 32]) -> (free: bool)
        ensures
            free == free_for(self@, (*key, true)),
    {
        !self.is_locked_readonly(key) && !self.is_locked_write(key)
    }

    fn lock_readonly(&mut self, key: &[u8; 32])
        requires
            old(self).valid(),
            held(old(self)@.reads, key@) < u64::MAX,
        ensures
            final(self).valid(),
            locked_on_top(old(self)@, final(self)@, seq![(*key, false)]),
    {
        let count: u64 = match count_of(&self.readonly_locks, key) {
            Some(count) => count,
            None => 0,
        };
        let ghost before = self@;
        set_count(&mut self.readonly_locks, key, count + 1);
        proof {
            lemma_count_up(before.reads, key@);
            lemma_locked_once(before, self@, (*key, false));
        }
    }

    fn lock_write(&mut self, key: &[u8; 32])
        requires
            old(self).valid(),
            held(old(self)@.writes, key@) < u64::MAX,
        ensures
            final(self).valid(),
            locked_on_top(old(self)@, final(self)@, seq![(*key, true)]),
    {
        let count: u64 = match count_of(&self.write_locks, key) {
            Some(count) => count,
            None => 0,
        };
        let ghost before = self@;
        set_count(&mut self.write_locks, key, count + 1);
        proof {
            lemma_count_up(before.writes, key@);
            lemma_locked_once(before, self@, (*key, true));
        }
    }

    /// Checks each of the locks against those held.
    fn can_lock_accounts(&self, keys: &Vec<KeyLock>) -> (answer: Result<(), TransactionLockError>)
        ensures
            answer == if all_free(self@, keys@) {
                Ok::<(), TransactionLockError>(())
            } else {
                Err::<(), TransactionLockError>(TransactionLockError::AccountInUse)
            },
    {
        let mut i: usize = 0;
        while i < keys.len()
            invariant
                i <= keys@.len(),
                forall|j: int| 0 <= j < i ==> #[trigger] free_for(self@, keys@[j]),
            decreases keys@.len() - i,
        {
            let free = if keys[i].1 {
                self.can_write_lock(&keys[i].0)
            } else {
                self.can_read_lock(&keys[i].0)
            };
            if !free {
                assert(!free_for(self@, keys@[i as int]));
                return Err(TransactionLockError::AccountInUse);
            }
            i += 1;
        }
        Ok(())
    }

    /// Takes each of the locks.
    fn lock_accounts(&mut self, keys: &Vec<KeyLock>)
        requires
            old(self).valid(),
            counts_fit(old(self)@, keys@),
        ensures
            final(self).valid(),
            locked_on_top(old(self)@, final(self)@, keys@),
    {
        let ghost before = self@;
        let mut i: usize = 0;
        assert(keys@.subrange(0, 0) =~= seq![]);
        while i < keys.len()
            invariant
                i <= keys@.len(),
                self.valid(),
                counts_fit(before, keys@),
                locked_on_top(before, self@, keys@.subrange(0, i as int)),
            decreases keys@.len() - i,
        {
            let lock = keys[i];
            let ghost mid = self@;
            proof {
                let taken = keys@.subrange(0, i as int);
                lemma_occurrences_prefix(keys@, i + 1, lock.0@, lock.1);
                lemma_occurrences_push(taken, lock, lock.0@, lock.1);
                assert(taken.push(lock) =~= keys@.subrange(0, i + 1));
                assert(held(before.reads, lock.0@) >= 0);
                assert(held(mid.reads, lock.0@) >= 0 && held(mid.writes, lock.0@) >= 0);
            }
            if lock.1 {
                self.lock_write(&lock.0);
            } else {
                self.lock_readonly(&lock.0);
            }
            proof {
                lemma_lock_step(before, mid, self@, keys@.subrange(0, i as int), lock);
            }
            i += 1;
        }
        assert(keys@.subrange(0, i as int) =~= keys@);
    }

    fn unlock_readonly(&mut self, key: &[u8; 32])
        requires
            old(self).valid(),
            held(old(self)@.reads, key@) > 0,
        ensures
            final(self).valid(),
            locked_on_top(final(self)@, old(self)@, seq![(*key, false)]),
    {
        let ghost before = self@;
        if let Some(count) = count_of(&self.readonly_locks, key) {
            if count == 1 {
                drop_count(&mut self.readonly_locks, key);
            } else {
                set_count(&mut self.readonly_locks, key, count - 1);
            }
        }
        proof {
            assert(self@.reads == counted_down(before.reads, key@));
            lemma_count_down(before.reads, key@);
            assert forall|k: Seq<u8>| #[trigger] held(before.reads, k) == held(self@.reads, k)
                + if k == key@ {
                1int
            } else {
                0int
            } by {
                assert(held(counted_down(before.reads, key@), k) == held(self@.reads, k));
            }
            lemma_locked_once(self@, before, (*key, false));
        }
    }

    fn unlock_write(&mut self, key: &[u8; 32])
        requires
            old(self).valid(),
            held(old(self)@.writes, key@) > 0,
        ensures
            final(self).valid(),
            locked_on_top(final(self)@, old(self)@, seq![(*key, true)]),
    {
        let ghost before = self@;
        if let Some(count) = count_of(&self.write_locks, key) {
            if count == 1 {
                drop_count(&mut self.write_locks, key);
            } else {
                set_count(&mut self.write_locks, key, count - 1);
            }
        }
        proof {
            assert(self@.writes == counted_down(before.writes, key@));
            lemma_count_down(before.writes, key@);
            assert forall|k: Seq<u8>| #[trigger] held(before.writes, k) == held(self@.writes, k)
                + if k == key@ {
                1int
            } else {
                0int
            } by {
                assert(held(counted_down(before.writes, key@), k) == held(self@.writes, k));
            }
            lemma_locked_once(self@, before, (*key, true));
        }
    }

    /// Releases each of the locks; they must be held.
    pub fn unlock_accounts(&mut self, keys: &Vec<KeyLock>)
        requires
            old(self).valid(),
            all_held(old(self)@, keys@),
        ensures
            final(self).valid(),
            locked_on_top(final(self)@, old(self)@, keys@),
    {
        let ghost before = self@;
        let mut i: usize = 0;
        assert(keys@.subrange(0, 0) =~= seq![]);
        while i < keys.len()
            invariant
                i <= keys@.len(),
                self.valid(),
                all_held(before, keys@),
                locked_on_top(self@, before, keys@.subrange(0, i as int)),
            decreases keys@.len() - i,
        {
            let lock = keys[i];
            let ghost mid = self@;
            let ghost taken = keys@.subrange(0, i as int);
            proof {
                lemma_occurrences_prefix(keys@, i + 1, lock.0@, lock.1);
                lemma_occurrences_push(taken, lock, lock.0@, lock.1);
                assert(taken.push(lock) =~= keys@.subrange(0, i + 1));
                assert(held(before.reads, lock.0@) >= 0 && held(before.writes, lock.0@) >= 0);
            }
            if lock.1 {
                self.unlock_write(&lock.0);
            } else {
                self.unlock_readonly(&lock.0);
            }
            proof {
                lemma_release_step(before, mid, self@, taken, lock);
            }
            i += 1;
        }
        assert(keys@.subrange(0, i as int) =~= keys@);
    }

    /// Locks the accounts of every transaction of a batch that does not conflict with the locks
    /// held before; the transactions of the batch do not exclude each other.
    pub fn try_lock_transaction_batch(
        &mut self,
        validated_batch_keys: Vec<Result<Vec<KeyLock>, TransactionLockError>>,
    ) -> (outcomes: Vec<Result<(), TransactionLockError>>)
        requires
            old(self).valid(),
            counts_fit(old(self)@, accepted_keys(old(self)@, validated_batch_keys@)),
        ensures
            final(self).valid(),
            locked_on_top(
                old(self)@,
                final(self)@,
                accepted_keys(old(self)@, validated_batch_keys@),
            ),
            outcomes@.len() == validated_batch_keys@.len(),
            forall|i: int|
                0 <= i < outcomes@.len() ==> #[trigger] outcomes@[i] == batch_outcome(
                    old(self)@,
                    validated_batch_keys@[i],
                ),
    {
        let ghost before = self@;
        let ghost batch = validated_batch_keys@;
        let mut decided: Vec<Result<Vec<KeyLock>, TransactionLockError>> = Vec::new();
        let mut requests = validated_batch_keys;
        requests = reversed(requests);
        let n: usize = requests.len();
        while decided.len() < n
            invariant
                self@ == before,
                self.valid(),
                n == batch.len(),
                decided@.len() + requests@.len() == n,
                forall|i: int| 0 <= i < requests@.len() ==> #[trigger] requests@[i] == batch[n - 1
                    - i],
                forall|i: int|
                    0 <= i < decided@.len() ==> #[trigger] decided@[i] == match batch[i] {
                        Ok(keys) if !all_free(before, keys@) => Err::<
                            Vec<KeyLock>,
                            TransactionLockError,
                        >(TransactionLockError::AccountInUse),
                        other => other,
                    },
            decreases n - decided@.len(),
        {
            if let Some(request) = requests.pop() {
                let checked = match request {
                    Ok(keys) => match self.can_lock_accounts(&keys) {
                        Ok(()) => Ok(keys),
                        Err(e) => Err(e),
                    },
                    Err(e) => Err(e),
                };
                decided.push(checked);
            }
        }
        let mut outcomes: Vec<Result<(), TransactionLockError>> = Vec::new();
        decided = reversed(decided);
        assert(batch.subrange(0, 0) =~= seq![]);
        while outcomes.len() < n
            invariant
                self.valid(),
                n == batch.len(),
                counts_fit(before, accepted_keys(before, batch)),
                outcomes@.len() + decided@.len() == n,
                forall|i: int|
                    0 <= i < decided@.len() ==> #[trigger] decided@[i] == match batch[n - 1 - i] {
                        Ok(keys) if !all_free(before, keys@) => Err::<
                            Vec<KeyLock>,
                            TransactionLockError,
                        >(TransactionLockError::AccountInUse),
                        other => other,
                    },
                forall|i: int|
                    0 <= i < outcomes@.len() ==> #[trigger] outcomes@[i] == batch_outcome(
                        before,
                        batch[i],
                    ),
                locked_on_top(
                    before,
                    self@,
                    accepted_keys(before, batch.subrange(0, outcomes@.len() as int)),
                ),
            decreases n - outcomes@.len(),
        {
            let ghost at = outcomes@.len() as int;
            if let Some(available) = decided.pop() {
                let ghost mid = self@;
                let ghost taken = accepted_keys(before, batch.subrange(0, at));
                assert(batch.subrange(0, at + 1).drop_last() =~= batch.subrange(0, at));
                let outcome = match available {
                    Ok(keys) => {
                        proof {
                            lemma_fit_on_top(before, mid, batch, at, keys@);
                        }
                        self.lock_accounts(&keys);
                        proof {
                            lemma_locked_in_turn(before, mid, self@, taken, keys@);
                        }
                        Ok(())
                    },
                    Err(e) => Err(e),
                };
                outcomes.push(outcome);
            }
        }
        assert(batch.subrange(0, n as int) =~= batch);
        outcomes
    }
}

/// The elements in opposite order.
fn reversed<T>(items: Vec<T>) -> (turned: Vec<T>)
    ensures
        turned@.len() == items@.len(),
        forall|i: int| 0 <= i < turned@.len() ==> #[trigger] turned@[i] == items@[items@.len() - 1
            - i],
{
    let ghost all = items@;
    let mut rest = items;
    let mut turned: Vec<T> = Vec::new();
    while rest.len() > 0
        invariant
            rest@.len() + turned@.len() == all.len(),
            forall|i: int| 0 <= i < rest@.len() ==> #[trigger] rest@[i] == all[i],
            forall|i: int|
                0 <= i < turned@.len() ==> #[trigger] turned@[i] == all[all.len() - 1 - i],
        decreases rest@.len(),
    {
        if let Some(item) = rest.pop() {
            turned.push(item);
        }
    }
    turned
}

pub(crate) proof fn lemma_occurrences_concat(a: Seq<KeyLock>, b: Seq<KeyLock>, key: Seq<u8>, writable: bool)
    ensures
        occurrences(a + b, key, writable) == occurrences(a, key, writable) + occurrences(
            b,
            key,
            writable,
        ),
    decreases b.len(),
{
    if b.len() == 0 {
        assert(a + b =~= a);
    } else {
        assert((a + b).drop_last() =~= a + b.drop_last());
        lemma_occurrences_concat(a, b.drop_last(), key, writable);
    }
}

/// Two rounds of locking.
proof fn lemma_locked_in_turn(
    before: LockTable,
    mid: LockTable,
    after: LockTable,
    first: Seq<KeyLock>,
    second: Seq<KeyLock>,
)
    requires
        locked_on_top(before, mid, first),
        locked_on_top(mid, after, second),
    ensures
        locked_on_top(before, after, first + second),
{
    assert forall|key: Seq<u8>|
        #![trigger held(after.reads, key)]
        #![trigger held(after.writes, key)]
        held(after.reads, key) == held(before.reads, key) + occurrences(first + second, key, false)
            && held(after.writes, key) == held(before.writes, key) + occurrences(
            first + second,
            key,
            true,
        ) by {
        lemma_occurrences_concat(first, second, key, false);
        lemma_occurrences_concat(first, second, key, true);
        assert(held(mid.reads, key) >= 0 && held(mid.writes, key) >= 0);
    }
}

/// The keys of the first transactions of a batch are among those of all of them.
proof fn lemma_accepted_prefix(
    table: LockTable,
    batch: Seq<Result<Vec<KeyLock>, TransactionLockError>>,
    n: int,
    key: Seq<u8>,
    writable: bool,
)
    requires
        0 <= n <= batch.len(),
    ensures
        occurrences(accepted_keys(table, batch.subrange(0, n)), key, writable) <= occurrences(
            accepted_keys(table, batch),
            key,
            writable,
        ),
    decreases batch.len() - n,
{
    if n == batch.len() {
        assert(batch.subrange(0, n) =~= batch);
    } else {
        lemma_accepted_prefix(table, batch, n + 1, key, writable);
        assert(batch.subrange(0, n + 1).drop_last() =~= batch.subrange(0, n));
        if let Ok(keys) = batch[n] {
            if all_free(table, keys@) {
                let earlier = accepted_keys(table, batch.subrange(0, n));
                lemma_occurrences_concat(earlier, keys@, key, writable);
                lemma_occurrences_bound(keys@, key, writable);
            }
        }
    }
}

/// Where the counts fit for a whole batch, they fit for the next transaction of it.
proof fn lemma_fit_on_top(
    before: LockTable,
    mid: LockTable,
    batch: Seq<Result<Vec<KeyLock>, TransactionLockError>>,
    at: int,
    keys: Seq<KeyLock>,
)
    requires
        0 <= at < batch.len(),
        batch[at] matches Ok(own) && own@ == keys && all_free(before, keys),
        counts_fit(before, accepted_keys(before, batch)),
        locked_on_top(before, mid, accepted_keys(before, batch.subrange(0, at))),
    ensures
        counts_fit(mid, keys),
{
    let earlier = accepted_keys(before, batch.subrange(0, at));
    assert(batch.subrange(0, at + 1).drop_last() =~= batch.subrange(0, at));
    assert forall|key: Seq<u8>|
        #![trigger held(mid.reads, key)]
        #![trigger held(mid.writes, key)]
        held(mid.reads, key) + occurrences(keys, key, false) <= u64::MAX && held(mid.writes, key)
            + occurrences(keys, key, true) <= u64::MAX by {
        lemma_occurrences_concat(earlier, keys, key, false);
        lemma_occurrences_concat(earlier, keys, key, true);
        lemma_accepted_prefix(before, batch, at + 1, key, false);
        lemma_accepted_prefix(before, batch, at + 1, key, true);
        assert(held(before.reads, key) >= 0 && held(before.writes, key) >= 0);
    }
}

/// Locks as one table that threads share, with the readers and writers of each account side by
/// side.
pub struct ConcurrentAccountLocks {
    pub locks: DashMap<[u8; 32], (u64, u64)>,
}

/// The accounts with readers, or with writers, of a table of pairs.
pub open spec fn table_of(pairs: Map<Seq<u8>, (u64, u64)>) -> LockTable {
    LockTable {
        reads: Map::new(
            |key: Seq<u8>| pairs.contains_key(key) && pairs[key].0 > 0,
            |key: Seq<u8>| pairs[key].0,
        ),
        writes: Map::new(
            |key: Seq<u8>| pairs.contains_key(key) && pairs[key].1 > 0,
            |key: Seq<u8>| pairs[key].1,
        ),
    }
}

/// Whether the locks for `keys` can be taken one after the other: none conflicts with a lock in
/// the table, nor with an earlier one on the same account.
pub open spec fn lockable_in_turn(table: LockTable, keys: Seq<KeyLock>) -> bool {
    &&& all_free(table, keys)
    &&& forall|i: int, j: int|
        #![trigger keys[i], keys[j]]
        0 <= i < j < keys.len() && keys[i].0@ == keys[j].0@ ==> !keys[i].1 && !keys[j].1
}

impl View for ConcurrentAccountLocks {
    type V = LockTable;

    open spec fn view(&self) -> LockTable {
        table_of(crate::lock_maps::pairs_of(self.locks))
    }
}

impl Default for ConcurrentAccountLocks {
    /// No locks.
    fn default() -> (locks: ConcurrentAccountLocks)
        ensures
            locks.valid(),
            locks@ == (LockTable {
                reads: Map::<Seq<u8>, u64>::empty(),
                writes: Map::<Seq<u8>, u64>::empty(),
            }),
    {
        let locks = ConcurrentAccountLocks { locks: new_pairs() };
        assert(locks@.reads =~= Map::<Seq<u8>, u64>::empty());
        assert(locks@.writes =~= Map::<Seq<u8>, u64>::empty());
        locks
    }
}

/// An account occurs among `keys` for a sort of lock unless the count is zero.
proof fn lemma_occurrences_zero(keys: Seq<KeyLock>, key: Seq<u8>, writable: bool)
    ensures
        occurrences(keys, key, writable) >= 0,
        occurrences(keys, key, writable) == 0 <==> forall|i: int|
            0 <= i < keys.len() ==> !((#[trigger] keys[i]).0@ == key && keys[i].1 == writable),
    decreases keys.len(),
{
    if keys.len() > 0 {
        let shorter = keys.drop_last();
        lemma_occurrences_zero(shorter, key, writable);
        if occurrences(keys, key, writable) == 0 {
            assert forall|i: int| 0 <= i < keys.len() implies !((#[trigger] keys[i]).0@ == key
                && keys[i].1 == writable) by {
                if i < keys.len() - 1 {
                    assert(shorter[i] == keys[i]);
                }
            }
        } else if !(keys.last().0@ == key && keys.last().1 == writable) {
            let i = choose|i: int|
                0 <= i < shorter.len() && (#[trigger] shorter[i]).0@ == key && shorter[i].1
                    == writable;
            assert(keys[i] == shorter[i]);
        } else {
            assert(keys[keys.len() - 1] == keys.last());
        }
    }
}

/// One more lock can be taken in turn exactly where it is free beside those taken before.
proof fn lemma_next_in_turn(
    before: LockTable,
    mid: LockTable,
    taken: Seq<KeyLock>,
    lock: KeyLock,
)
    requires
        no_zeros(before.reads),
        no_zeros(before.writes),
        locked_on_top(before, mid, taken),
        lockable_in_turn(before, taken),
    ensures
        free_for(mid, lock) <==> lockable_in_turn(before, taken.push(lock)),
{
    let key = lock.0@;
    let more = taken.push(lock);
    lemma_occurrences_zero(taken, key, true);
    lemma_occurrences_zero(taken, key, false);
    assert(held(mid.reads, key) == held(before.reads, key) + occurrences(taken, key, false));
    assert(held(mid.writes, key) == held(before.writes, key) + occurrences(taken, key, true));
    if free_for(mid, lock) {
        assert forall|i: int| 0 <= i < more.len() implies #[trigger] free_for(before, more[i]) by {
            if i < taken.len() {
                assert(free_for(before, taken[i]));
            }
        }
        assert forall|i: int, j: int|
            #![trigger more[i], more[j]]
            0 <= i < j < more.len() && more[i].0@ == more[j].0@ implies !more[i].1
            && !more[j].1 by {
            assert(more[i] == taken[i]);
            if j < taken.len() {
                assert(more[j] == taken[j]);
            }
        }
    }
    if lockable_in_turn(before, more) {
        assert(more[taken.len() as int] == lock);
        assert(free_for(before, more[taken.len() as int]));
        assert forall|i: int| 0 <= i < taken.len() implies !((#[trigger] taken[i]).0@ == key
            && taken[i].1) by {
            assert(more[i] == taken[i]);
        }
        if lock.1 {
            assert forall|i: int| 0 <= i < taken.len() implies !((#[trigger] taken[i]).0@ == key
                && !taken[i].1) by {
                assert(more[i] == taken[i]);
            }
        }
    }
}

/// Tables without zeros that hold the same number of locks on each account are the same.
pub proof fn lemma_same_table(a: LockTable, b: LockTable)
    requires
        no_zeros(a.reads),
        no_zeros(a.writes),
        no_zeros(b.reads),
        no_zeros(b.writes),
        forall|key: Seq<u8>|
            #![trigger held(a.reads, key)]
            held(a.reads, key) == held(b.reads, key),
        forall|key: Seq<u8>|
            #![trigger held(a.writes, key)]
            held(a.writes, key) == held(b.writes, key),
    ensures
        a == b,
{
    assert forall|key: Seq<u8>| a.reads.contains_key(key) <==> b.reads.contains_key(key) by {
        assert(held(a.reads, key) == held(b.reads, key));
    }
    assert forall|key: Seq<u8>| #[trigger] a.reads.contains_key(key) implies a.reads[key]
        == b.reads[key] by {
        assert(held(a.reads, key) == held(b.reads, key));
    }
    assert forall|key: Seq<u8>| a.writes.contains_key(key) <==> b.writes.contains_key(key) by {
        assert(held(a.writes, key) == held(b.writes, key));
    }
    assert forall|key: Seq<u8>| #[trigger] a.writes.contains_key(key) implies a.writes[key]
        == b.writes[key] by {
        assert(held(a.writes, key) == held(b.writes, key));
    }
    assert(a.reads =~= b.reads);
    assert(a.writes =~= b.writes);
}

impl ConcurrentAccountLocks {
    /// Accounts without locks do not occur in the table.
    pub open spec fn valid(&self) -> bool {
        forall|key: Seq<u8>| #[trigger]
            crate::lock_maps::pairs_of(self.locks).contains_key(key) ==> {
                ||| crate::lock_maps::pairs_of(self.locks)[key].0 > 0
                ||| crate::lock_maps::pairs_of(self.locks)[key].1 > 0
            }
    }

    /// Readers and writers of an account.
    fn pair(&self, key: &[u8; 32]) -> (pair: (u64, u64))
        ensures
            pair.0 == held(self@.reads, key@),
            pair.1 == held(self@.writes, key@),
    {
        match pair_of(&self.locks, key) {
            Some(pair) => pair,
            None => (0, 0),
        }
    }

    /// Takes one lock.
    fn count_up(&mut self, lock: KeyLock)
        requires
            old(self).valid(),
            lock.1 ==> held(old(self)@.writes, lock.0@) < u64::MAX,
            !lock.1 ==> held(old(self)@.reads, lock.0@) < u64::MAX,
        ensures
            final(self).valid(),
            locked_on_top(old(self)@, final(self)@, seq![lock]),
    {
        let ghost before = self@;
        let pair = self.pair(&lock.0);
        if lock.1 {
            set_pair(&mut self.locks, &lock.0, (pair.0, pair.1 + 1));
        } else {
            set_pair(&mut self.locks, &lock.0, (pair.0 + 1, pair.1));
        }
        proof {
            lemma_locked_once(before, self@, lock);
        }
    }

    /// Releases one lock.
    fn count_down(&mut self, lock: KeyLock)
        requires
            old(self).valid(),
            lock.1 ==> held(old(self)@.writes, lock.0@) > 0,
            !lock.1 ==> held(old(self)@.reads, lock.0@) > 0,
        ensures
            final(self).valid(),
            locked_on_top(final(self)@, old(self)@, seq![lock]),
    {
        let ghost before = self@;
        let pair = self.pair(&lock.0);
        let left = if lock.1 {
            (pair.0, pair.1 - 1)
        } else {
            (pair.0 - 1, pair.1)
        };
        if left.0 == 0 && left.1 == 0 {
            drop_pair(&mut self.locks, &lock.0);
        } else {
            set_pair(&mut self.locks, &lock.0, left);
        }
        proof {
            lemma_locked_once(self@, before, lock);
        }
    }

    fn try_read_lock(&mut self, key: &[u8; 32]) -> (taken: bool)
        requires
            old(self).valid(),
            held(old(self)@.reads, key@) < u64::MAX,
        ensures
            final(self).valid(),
            taken == free_for(old(self)@, (*key, false)),
            taken ==> locked_on_top(old(self)@, final(self)@, seq![(*key, false)]),
            !taken ==> final(self)@ == old(self)@,
    {
        let pair = self.pair(key);
        if pair.1 == 0 {
            self.count_up((*key, false));
            true
        } else {
            false
        }
    }

    fn try_write_lock(&mut self, key: &[u8; 32]) -> (taken: bool)
        requires
            old(self).valid(),
        ensures
            final(self).valid(),
            taken == free_for(old(self)@, (*key, true)),
            taken ==> locked_on_top(old(self)@, final(self)@, seq![(*key, true)]),
            !taken ==> final(self)@ == old(self)@,
    {
        let pair = self.pair(key);
        if pair.0 == 0 && pair.1 == 0 {
            self.count_up((*key, true));
            true
        } else {
            false
        }
    }

    /// Releases the first `n` of the locks; they must be held.
    fn release_first(&mut self, keys: &Vec<KeyLock>, n: usize)
        requires
            old(self).valid(),
            n <= keys@.len(),
            all_held(old(self)@, keys@.subrange(0, n as int)),
        ensures
            final(self).valid(),
            locked_on_top(final(self)@, old(self)@, keys@.subrange(0, n as int)),
    {
        let ghost before = self@;
        let ghost wanted = keys@.subrange(0, n as int);
        let mut i: usize = 0;
        assert(wanted.subrange(0, 0) =~= seq![]);
        while i < n
            invariant
                i <= n <= keys@.len(),
                wanted == keys@.subrange(0, n as int),
                self.valid(),
                all_held(before, wanted),
                locked_on_top(self@, before, wanted.subrange(0, i as int)),
            decreases n - i,
        {
            let lock = keys[i];
            let ghost mid = self@;
            let ghost taken = wanted.subrange(0, i as int);
            proof {
                lemma_occurrences_prefix(wanted, i + 1, lock.0@, lock.1);
                lemma_occurrences_push(taken, lock, lock.0@, lock.1);
                assert(taken.push(lock) =~= wanted.subrange(0, i + 1));
                assert(held(before.reads, lock.0@) >= 0 && held(before.writes, lock.0@) >= 0);
            }
            self.count_down(lock);
            proof {
                lemma_release_step(before, mid, self@, taken, lock);
            }
            i += 1;
        }
        assert(wanted.subrange(0, i as int) =~= wanted);
    }

    /// Locks the accounts of one transaction, all of them or, where one is in use, none.
    pub fn try_lock_accounts(&mut self, keys: &Vec<KeyLock>) -> (outcome: Result<
        (),
        TransactionLockError,
    >)
        requires
            old(self).valid(),
            counts_fit(old(self)@, keys@),
        ensures
            final(self).valid(),
            lockable_in_turn(old(self)@, keys@) ==> {
                &&& outcome == Ok::<(), TransactionLockError>(())
                &&& locked_on_top(old(self)@, final(self)@, keys@)
            },
            !lockable_in_turn(old(self)@, keys@) ==> {
                &&& outcome == Err::<(), TransactionLockError>(TransactionLockError::AccountInUse)
                &&& final(self)@ == old(self)@
            },
    {
        let ghost before = self@;
        let mut locked_count: usize = 0;
        assert(keys@.subrange(0, 0) =~= seq![]);
        while locked_count < keys.len()
            invariant
                locked_count <= keys@.len(),
                self.valid(),
                no_zeros(before.reads),
                no_zeros(before.writes),
                before == old(self)@,
                counts_fit(before, keys@),
                locked_on_top(before, self@, keys@.subrange(0, locked_count as int)),
                lockable_in_turn(before, keys@.subrange(0, locked_count as int)),
            decreases keys@.len() - locked_count,
        {
            let lock = keys[locked_count];
            let ghost mid = self@;
            let ghost taken = keys@.subrange(0, locked_count as int);
            proof {
                lemma_occurrences_prefix(keys@, locked_count + 1, lock.0@, lock.1);
                lemma_occurrences_push(taken, lock, lock.0@, lock.1);
                assert(taken.push(lock) =~= keys@.subrange(0, locked_count + 1));
                assert(held(before.reads, lock.0@) >= 0);
                assert(held(mid.reads, lock.0@) >= 0 && held(mid.writes, lock.0@) >= 0);
                lemma_next_in_turn(before, mid, taken, lock);
            }
            let success = if lock.1 {
                self.try_write_lock(&lock.0)
            } else {
                self.try_read_lock(&lock.0)
            };
            if !success {
                proof {
                    assert forall|key: Seq<u8>|
                        #![trigger held(mid.reads, key)]
                        #![trigger held(mid.writes, key)]
                        occurrences(taken, key, false) <= held(mid.reads, key) && occurrences(
                            taken,
                            key,
                            true,
                        ) <= held(mid.writes, key) by {
                        assert(held(before.reads, key) >= 0 && held(before.writes, key) >= 0);
                    }
                }
                self.release_first(keys, locked_count);
                proof {
                    assert forall|key: Seq<u8>|
                        #![trigger held(self@.reads, key)]
                        held(self@.reads, key) == held(before.reads, key) by {
                        assert(held(mid.reads, key) >= 0);
                    }
                    assert forall|key: Seq<u8>|
                        #![trigger held(self@.writes, key)]
                        held(self@.writes, key) == held(before.writes, key) by {
                        assert(held(mid.writes, key) >= 0);
                    }
                    lemma_same_table(self@, before);
                    if lockable_in_turn(before, keys@) {
                        lemma_prefix_in_turn(before, keys@, locked_count + 1);
                    }
                }
                return Err(TransactionLockError::AccountInUse);
            }
            proof {
                lemma_lock_step(before, mid, self@, taken, lock);
            }
            locked_count += 1;
        }
        assert(keys@.subrange(0, locked_count as int) =~= keys@);
        Ok(())
    }

    /// Whether one of the locks conflicts with those held.
    fn conflicts(&self, keys: &Vec<KeyLock>) -> (conflict: bool)
        ensures
            conflict == !all_free(self@, keys@),
    {
        let mut i: usize = 0;
        while i < keys.len()
            invariant
                i <= keys@.len(),
                forall|j: int| 0 <= j < i ==> #[trigger] free_for(self@, keys@[j]),
            decreases keys@.len() - i,
        {
            let pair = self.pair(&keys[i].0);
            let conflict = if keys[i].1 {
                pair.0 > 0 || pair.1 > 0
            } else {
                pair.1 > 0
            };
            if conflict {
                assert(!free_for(self@, keys@[i as int]));
                return true;
            }
            i += 1;
        }
        false
    }

    /// Takes each of the locks.
    fn lock_all(&mut self, keys: &Vec<KeyLock>)
        requires
            old(self).valid(),
            counts_fit(old(self)@, keys@),
        ensures
            final(self).valid(),
            locked_on_top(old(self)@, final(self)@, keys@),
    {
        let ghost before = self@;
        let mut i: usize = 0;
        assert(keys@.subrange(0, 0) =~= seq![]);
        while i < keys.len()
            invariant
                i <= keys@.len(),
                self.valid(),
                counts_fit(before, keys@),
                locked_on_top(before, self@, keys@.subrange(0, i as int)),
            decreases keys@.len() - i,
        {
            let lock = keys[i];
            let ghost mid = self@;
            proof {
                let taken = keys@.subrange(0, i as int);
                lemma_occurrences_prefix(keys@, i + 1, lock.0@, lock.1);
                lemma_occurrences_push(taken, lock, lock.0@, lock.1);
                assert(taken.push(lock) =~= keys@.subrange(0, i + 1));
                assert(held(before.reads, lock.0@) >= 0);
                assert(held(mid.reads, lock.0@) >= 0 && held(mid.writes, lock.0@) >= 0);
            }
            self.count_up(lock);
            proof {
                lemma_lock_step(before, mid, self@, keys@.subrange(0, i as int), lock);
            }
            i += 1;
        }
        assert(keys@.subrange(0, i as int) =~= keys@);
    }

    /// Locks the accounts of every transaction of a batch that does not conflict with the locks
    /// held before; the transactions of the batch do not exclude each other.
    pub fn try_lock_transaction_batch(
        &mut self,
        validated_batch_keys: Vec<Result<Vec<KeyLock>, TransactionLockError>>,
    ) -> (outcomes: Vec<Result<(), TransactionLockError>>)
        requires
            old(self).valid(),
            counts_fit(old(self)@, accepted_keys(old(self)@, validated_batch_keys@)),
        ensures
            final(self).valid(),
            locked_on_top(
                old(self)@,
                final(self)@,
                accepted_keys(old(self)@, validated_batch_keys@),
            ),
            outcomes@.len() == validated_batch_keys@.len(),
            forall|i: int|
                0 <= i < outcomes@.len() ==> #[trigger] outcomes@[i] == batch_outcome(
                    old(self)@,
                    validated_batch_keys@[i],
                ),
    {
        let ghost before = self@;
        let ghost batch = validated_batch_keys@;
        let n: usize = validated_batch_keys.len();
        let mut conflicting: Vec<bool> = Vec::new();
        while conflicting.len() < n
            invariant
                self@ == before,
                self.valid(),
                batch == validated_batch_keys@,
                n == batch.len(),
                conflicting@.len() <= n,
                forall|i: int|
                    0 <= i < conflicting@.len() ==> #[trigger] conflicting@[i] == (batch[i] matches
                    Ok(keys) && !all_free(before, keys@)),
            decreases n - conflicting@.len(),
        {
            let at: usize = conflicting.len();
            let conflict = match &validated_batch_keys[at] {
                Ok(keys) => self.conflicts(keys),
                Err(_) => false,
            };
            conflicting.push(conflict);
        }
        let mut rest = reversed(validated_batch_keys);
        let mut outcomes: Vec<Result<(), TransactionLockError>> = Vec::new();
        assert(batch.subrange(0, 0) =~= seq![]);
        while outcomes.len() < n
            invariant
                self.valid(),
                n == batch.len(),
                counts_fit(before, accepted_keys(before, batch)),
                outcomes@.len() + rest@.len() == n,
                forall|i: int| 0 <= i < rest@.len() ==> #[trigger] rest@[i] == batch[n - 1 - i],
                conflicting@.len() == n,
                forall|i: int|
                    0 <= i < n ==> #[trigger] conflicting@[i] == (batch[i] matches Ok(keys)
                        && !all_free(before, keys@)),
                forall|i: int|
                    0 <= i < outcomes@.len() ==> #[trigger] outcomes@[i] == batch_outcome(
                        before,
                        batch[i],
                    ),
                locked_on_top(
                    before,
                    self@,
                    accepted_keys(before, batch.subrange(0, outcomes@.len() as int)),
                ),
            decreases n - outcomes@.len(),
        {
            let at: usize = outcomes.len();
            if let Some(request) = rest.pop() {
                let ghost mid = self@;
                let ghost taken = accepted_keys(before, batch.subrange(0, at as int));
                assert(batch.subrange(0, at + 1).drop_last() =~= batch.subrange(0, at as int));
                let outcome = match request {
                    Ok(keys) => if conflicting[at] {
                        Err(TransactionLockError::AccountInUse)
                    } else {
                        proof {
                            lemma_fit_on_top(before, mid, batch, at as int, keys@);
                        }
                        self.lock_all(&keys);
                        proof {
                            lemma_locked_in_turn(before, mid, self@, taken, keys@);
                        }
                        Ok(())
                    },
                    Err(e) => Err(e),
                };
                outcomes.push(outcome);
            }
        }
        assert(batch.subrange(0, n as int) =~= batch);
        outcomes
    }

    /// Releases each of the locks; they must be held.
    pub fn unlock_accounts(&mut self, keys: &Vec<KeyLock>)
        requires
            old(self).valid(),
            all_held(old(self)@, keys@),
        ensures
            final(self).valid(),
            locked_on_top(final(self)@, old(self)@, keys@),
    {
        assert(keys@.subrange(0, keys@.len() as int) =~= keys@);
        let n: usize = keys.len();
        self.release_first(keys, n);
    }

    /// Whether an account is locked for reading.
    pub fn is_locked_readonly(&self, key: &[u8; 32]) -> (locked: bool)
        ensures
            locked == (held(self@.reads, key@) > 0),
    {
        self.pair(key).0 > 0
    }

    /// Whether an account is locked for writing.
    pub fn is_locked_write(&self, key: &[u8; 32]) -> (locked: bool)
        ensures
            locked == (held(self@.writes, key@) > 0),
    {
        self.pair(key).1 > 0
    }
}

/// A list that can be locked in turn starts with lists that can.
proof fn lemma_prefix_in_turn(table: LockTable, keys: Seq<KeyLock>, n: int)
    requires
        0 <= n <= keys.len(),
        lockable_in_turn(table, keys),
    ensures
        lockable_in_turn(table, keys.subrange(0, n)),
{
    let first = keys.subrange(0, n);
    assert forall|i: int| 0 <= i < first.len() implies #[trigger] free_for(table, first[i]) by {
        assert(free_for(table, keys[i]));
    }
    assert forall|i: int, j: int|
        #![trigger first[i], first[j]]
        0 <= i < j < first.len() && first[i].0@ == first[j].0@ implies !first[i].1
        && !first[j].1 by {
        assert(keys[i] == first[i] && keys[j] == first[j]);
    }
}

/// One more lock released.
proof fn lemma_release_step(
    before: LockTable,
    mid: LockTable,
    after: LockTable,
    taken: Seq<KeyLock>,
    lock: KeyLock,
)
    requires
        locked_on_top(mid, before, taken),
        locked_on_top(after, mid, seq![lock]),
    ensures
        locked_on_top(after, before, taken.push(lock)),
{
    assert forall|key: Seq<u8>|
        #![trigger held(before.reads, key)]
        #![trigger held(before.writes, key)]
        held(before.reads, key) == held(after.reads, key) + occurrences(
            taken.push(lock),
            key,
            false,
        ) && held(before.writes, key) == held(after.writes, key) + occurrences(
            taken.push(lock),
            key,
            true,
        ) by {
        lemma_occurrences_push(taken, lock, key, false);
        lemma_occurrences_push(taken, lock, key, true);
        lemma_single(lock, key);
        assert(held(mid.reads, key) >= 0 && held(mid.writes, key) >= 0);
    }
}

/// From this number of keys on, duplicates are looked for with a set.
pub const USE_ACCOUNT_LOCK_SET_SIZE: usize = 32;

/// A key occurs twice.
pub open spec fn repeats(keys: Seq<Seq<u8>>) -> bool {
    exists|i: int, j: int| 0 <= i < j < keys.len() && #[trigger] keys[i] == #[trigger] keys[j]
}

/// Whether a key occurs twice among a transaction's accounts.
pub fn has_duplicates(account_keys: AccountKeys<'_>) -> (duplicates: bool)
    ensures
        duplicates == repeats(crate::lock_maps::key_list(account_keys)),
{
    let ghost list = crate::lock_maps::key_list(account_keys);
    let n: usize = key_count(&account_keys);
    if n >= USE_ACCOUNT_LOCK_SET_SIZE {
        let mut set = new_key_set();
        let mut i: usize = 0;
        while i < n
            invariant
                i <= n,
                list == crate::lock_maps::key_list(account_keys),
                n == list.len(),
                forall|k: Seq<u8>|
                    crate::lock_maps::keys_of(set).contains(k) <==> exists|j: int|
                        0 <= j < i && #[trigger] list[j] == k,
                forall|a: int, b: int| 0 <= a < b < i ==> list[a] != list[b],
            decreases n - i,
        {
            let key = key_at(&account_keys, i);
            if !insert_key(&mut set, key) {
                proof {
                    let j = choose|j: int| 0 <= j < i && #[trigger] list[j] == key@;
                    assert(list[j] == list[i as int]);
                }
                return true;
            }
            i += 1;
        }
        false
    } else {
        let mut idx: usize = 0;
        while idx < n
            invariant
                idx <= n,
                list == crate::lock_maps::key_list(account_keys),
                n == list.len(),
                forall|a: int, b: int| 0 <= a < idx && a < b < n ==> list[a] != list[b],
            decreases n - idx,
        {
            let key = key_at(&account_keys, idx);
            let mut jdx: usize = idx + 1;
            while jdx < n
                invariant
                    idx < jdx <= n,
                    list == crate::lock_maps::key_list(account_keys),
                    n == list.len(),
                    key@ == list[idx as int],
                    forall|b: int| idx < b < jdx ==> list[idx as int] != list[b],
                decreases n - jdx,
            {
                let other = key_at(&account_keys, jdx);
                if same_bytes(key.as_slice(), other.as_slice()) {
                    assert(list[idx as int] == list[jdx as int]);
                    return true;
                }
                jdx += 1;
            }
            idx += 1;
        }
        false
    }
}

/// The answer to a transaction with these accounts.
pub open spec fn accounts_answer(keys: Seq<Seq<u8>>, limit: usize) -> Result<
    (),
    TransactionLockError,
> {
    if keys.len() > limit {
        Err(TransactionLockError::TooManyAccountLocks)
    } else if repeats(keys) {
        Err(TransactionLockError::AccountLoadedTwice)
    } else {
        Ok(())
    }
}

/// Checks the accounts of a transaction before they are locked: at most
/// `tx_account_lock_limit` of them, and none twice.
pub fn validate_account_locks(account_keys: AccountKeys<'_>, tx_account_lock_limit: usize) -> (answer: Result<
    (),
    TransactionLockError,
>)
    ensures
        ({
            let keys = crate::lock_maps::key_list(account_keys);
            answer == if keys.len() > tx_account_lock_limit {
                Err::<(), TransactionLockError>(TransactionLockError::TooManyAccountLocks)
            } else if repeats(keys) {
                Err::<(), TransactionLockError>(TransactionLockError::AccountLoadedTwice)
            } else {
                Ok::<(), TransactionLockError>(())
            }
        }),
        answer == accounts_answer(crate::lock_maps::key_list(account_keys), tx_account_lock_limit),
{
    if key_count(&account_keys) > tx_account_lock_limit {
        Err(TransactionLockError::TooManyAccountLocks)
    } else if has_duplicates(account_keys) {
        Err(TransactionLockError::AccountLoadedTwice)
    } else {
        Ok(())
    }
}

/// Releasing the locks of a transaction undoes taking them.
pub proof fn law_unlock_undoes_lock(
    before: LockTable,
    locked: LockTable,
    after: LockTable,
    keys: Seq<KeyLock>,
)
    requires
        no_zeros(before.reads),
        no_zeros(before.writes),
        no_zeros(after.reads),
        no_zeros(after.writes),
        locked_on_top(before, locked, keys),
        locked_on_top(after, locked, keys),
    ensures
        all_held(locked, keys),
        after == before,
{
    assert forall|key: Seq<u8>|
        #![trigger held(locked.reads, key)]
        #![trigger held(locked.writes, key)]
        occurrences(keys, key, false) <= held(locked.reads, key) && occurrences(keys, key, true)
            <= held(locked.writes, key) by {
        assert(held(before.reads, key) >= 0 && held(before.writes, key) >= 0);
    }
    assert forall|key: Seq<u8>|
        #![trigger held(after.reads, key)]
        held(after.reads, key) == held(before.reads, key) by {
        assert(held(locked.reads, key) >= 0);
    }
    assert forall|key: Seq<u8>|
        #![trigger held(after.writes, key)]
        held(after.writes, key) == held(before.writes, key) by {
        assert(held(locked.writes, key) >= 0);
    }
    lemma_same_table(after, before);
}

/// An account that is locked for writing can be locked in no way, and one that is locked for
/// reading cannot be locked for writing, until the locks are released.
pub proof fn law_locks_exclude(before: LockTable, locked: LockTable, keys: Seq<KeyLock>, i: int)
    requires
        no_zeros(before.reads),
        no_zeros(before.writes),
        locked_on_top(before, locked, keys),
        0 <= i < keys.len(),
    ensures
        keys[i].1 ==> !free_for(locked, (keys[i].0, false)) && !free_for(
            locked,
            (keys[i].0, true),
        ),
        !keys[i].1 ==> !free_for(locked, (keys[i].0, true)),
{
    let key = keys[i].0@;
    lemma_occurrences_zero(keys, key, true);
    lemma_occurrences_zero(keys, key, false);
    assert(held(locked.reads, key) == held(before.reads, key) + occurrences(keys, key, false));
    assert(held(locked.writes, key) == held(before.writes, key) + occurrences(keys, key, true));
}

/// The transactions of a batch do not exclude each other: one that is free beside the locks held
/// before the batch is accepted, and its locks are taken, whatever the others ask for.
pub proof fn law_batch_checked_against_earlier_locks_only(
    table: LockTable,
    batch: Seq<Result<Vec<KeyLock>, TransactionLockError>>,
    i: int,
)
    requires
        0 <= i < batch.len(),
        batch[i] is Ok,
    ensures
        all_free(table, batch[i]->Ok_0@) <==> batch_outcome(table, batch[i]) is Ok,
        forall|j: int|
            0 <= j < batch[i]->Ok_0@.len() && batch_outcome(table, batch[i]) is Ok
                ==> occurrences(
                accepted_keys(table, batch),
                (#[trigger] batch[i]->Ok_0@[j]).0@,
                batch[i]->Ok_0@[j].1,
            ) > 0,
{
    let keys = batch[i]->Ok_0@;
    assert forall|j: int|
        0 <= j < keys.len() && batch_outcome(table, batch[i]) is Ok implies occurrences(
        accepted_keys(table, batch),
        (#[trigger] keys[j]).0@,
        keys[j].1,
    ) > 0 by {
        let key = keys[j].0@;
        let writable = keys[j].1;
        assert(batch.subrange(0, i + 1).drop_last() =~= batch.subrange(0, i));
        let earlier = accepted_keys(table, batch.subrange(0, i));
        lemma_occurrences_concat(earlier, keys, key, writable);
        lemma_occurrences_bound(earlier, key, writable);
        lemma_occurrences_zero(keys, key, writable);
        lemma_accepted_prefix(table, batch, i + 1, key, writable);
    }
}

} // verus!
