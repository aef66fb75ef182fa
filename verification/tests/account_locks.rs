use slot_stream::account_locks::{
    has_duplicates, validate_account_locks, AccountLocks, ConcurrentAccountLocks, KeyLock,
    TransactionLockError,
};
use solana_message::v0::LoadedAddresses;
use solana_message::AccountKeys;
use solana_pubkey::Pubkey;
use solana_transaction_error::TransactionError;

const MAX_TX_ACCOUNT_LOCKS: usize = 128;

/// The `n`th of a row of distinct keys.
fn key(n: u8) -> Pubkey {
    let mut bytes = [0x11u8; 32];
    bytes[0] = n;
    bytes.into()
}

fn lock(n: u8, writable: bool) -> KeyLock {
    let mut bytes = [0x22u8; 32];
    bytes[0] = n;
    (bytes, writable)
}

#[test]
fn test_validate_account_locks_valid_no_dynamic() {
    let static_keys = &[key(1), key(2)];
    let account_keys = AccountKeys::new(static_keys, None);
    assert!(validate_account_locks(account_keys, MAX_TX_ACCOUNT_LOCKS).is_ok());
}

#[test]
fn test_validate_account_locks_too_many_no_dynamic() {
    let static_keys = &[key(1), key(2)];
    let account_keys = AccountKeys::new(static_keys, None);
    assert_eq!(
        validate_account_locks(account_keys, 1),
        Err(TransactionLockError::TooManyAccountLocks)
    );
}

#[test]
fn test_validate_account_locks_duplicate_no_dynamic() {
    let duplicate_key = key(1);
    let static_keys = &[duplicate_key, key(2), duplicate_key];
    let account_keys = AccountKeys::new(static_keys, None);
    assert_eq!(
        validate_account_locks(account_keys, MAX_TX_ACCOUNT_LOCKS),
        Err(TransactionLockError::AccountLoadedTwice)
    );
}

#[test]
fn test_validate_account_locks_valid_dynamic() {
    let static_keys = &[key(1), key(2)];
    let dynamic_keys = LoadedAddresses {
        writable: vec![key(3)],
        readonly: vec![key(4)],
    };
    let account_keys = AccountKeys::new(static_keys, Some(&dynamic_keys));
    assert!(validate_account_locks(account_keys, MAX_TX_ACCOUNT_LOCKS).is_ok());
}

#[test]
fn test_validate_account_locks_too_many_dynamic() {
    let static_keys = &[key(1)];
    let dynamic_keys = LoadedAddresses {
        writable: vec![key(2)],
        readonly: vec![key(3)],
    };
    let account_keys = AccountKeys::new(static_keys, Some(&dynamic_keys));
    assert_eq!(
        validate_account_locks(account_keys, 2),
        Err(TransactionLockError::TooManyAccountLocks)
    );
}

#[test]
fn test_validate_account_locks_duplicate_dynamic() {
    let duplicate_key = key(1);
    let static_keys = &[duplicate_key];
    let dynamic_keys = LoadedAddresses {
        writable: vec![key(2)],
        readonly: vec![duplicate_key],
    };
    let account_keys = AccountKeys::new(static_keys, Some(&dynamic_keys));
    assert_eq!(
        validate_account_locks(account_keys, MAX_TX_ACCOUNT_LOCKS),
        Err(TransactionLockError::AccountLoadedTwice)
    );
}

#[test]
fn test_has_duplicates_small() {
    let mut keys = (0..16).map(key).collect::<Vec<_>>();
    let account_keys = AccountKeys::new(&keys, None);
    assert!(!has_duplicates(account_keys));

    keys[14] = keys[3]; // Duplicate key
    let account_keys = AccountKeys::new(&keys, None);
    assert!(has_duplicates(account_keys));
}

#[test]
fn test_has_duplicates_large() {
    let mut keys = (0..64).map(key).collect::<Vec<_>>();
    let account_keys = AccountKeys::new(&keys, None);
    assert!(!has_duplicates(account_keys));

    keys[47] = keys[3]; // Duplicate key
    let account_keys = AccountKeys::new(&keys, None);
    assert!(has_duplicates(account_keys));
}

#[test]
fn a_write_lock_excludes_every_other_lock() {
    let mut locks = AccountLocks::default();
    let outcomes = locks.try_lock_transaction_batch(vec![
        Ok(vec![lock(1, true), lock(2, false)]),
        Ok(vec![lock(1, false)]),
        Ok(vec![lock(2, true)]),
        Ok(vec![lock(2, false)]),
    ]);
    assert_eq!(outcomes[0], Ok(()));
    assert_eq!(outcomes[3], Ok(()));
    // Later transactions of a batch are checked against the locks held before it.
    assert_eq!(outcomes[1], Ok(()));
    assert_eq!(outcomes[2], Ok(()));
    assert!(locks.is_locked_write(&lock(1, true).0));
    assert!(locks.is_locked_readonly(&lock(2, false).0));

    let outcomes = locks.try_lock_transaction_batch(vec![
        Ok(vec![lock(1, true)]),
        Ok(vec![lock(1, false)]),
        Ok(vec![lock(2, true)]),
        Err(TransactionLockError::TooManyAccountLocks),
        Ok(vec![lock(3, true)]),
    ]);
    assert_eq!(outcomes[0], Err(TransactionLockError::AccountInUse));
    assert_eq!(outcomes[1], Err(TransactionLockError::AccountInUse));
    assert_eq!(outcomes[2], Err(TransactionLockError::AccountInUse));
    assert_eq!(outcomes[3], Err(TransactionLockError::TooManyAccountLocks));
    assert_eq!(outcomes[4], Ok(()));
}

#[test]
fn unlocking_undoes_locking() {
    let mut locks = AccountLocks::default();
    let first = vec![lock(1, true), lock(2, false)];
    let second = vec![lock(2, false)];
    assert_eq!(
        locks.try_lock_transaction_batch(vec![Ok(first.clone()), Ok(second.clone())]),
        vec![Ok(()), Ok(())]
    );
    locks.unlock_accounts(&first);
    assert!(!locks.is_locked_write(&lock(1, true).0));
    assert!(locks.is_locked_readonly(&lock(2, false).0));
    locks.unlock_accounts(&second);
    assert!(!locks.is_locked_readonly(&lock(2, false).0));
    assert_eq!(locks.write_locks.len(), 0);
    assert_eq!(locks.readonly_locks.len(), 0);
}

#[test]
fn a_batch_is_undone_in_any_order() {
    let batch = || {
        vec![
            Ok(vec![lock(1, true), lock(2, false)]),
            Err(TransactionLockError::TooManyAccountLocks),
            Ok(vec![lock(2, true), lock(3, false)]),
            Ok(vec![lock(9, true)]),
            Ok(vec![lock(1, false)]),
        ]
    };
    let mut locks = AccountLocks::default();
    let mut shared = ConcurrentAccountLocks::default();
    let held = vec![lock(9, false)];
    assert_eq!(
        locks.try_lock_transaction_batch(vec![Ok(held.clone())]),
        vec![Ok(())]
    );
    assert_eq!(shared.try_lock_accounts(&held), Ok(()));

    // Both sorts of locks give the same answers and hold the same locks.
    let outcomes = locks.try_lock_transaction_batch(batch());
    assert_eq!(outcomes, shared.try_lock_transaction_batch(batch()));
    assert_eq!(outcomes[3], Err(TransactionLockError::AccountInUse));
    for n in [1, 2, 3, 9] {
        let key = lock(n, true).0;
        assert_eq!(locks.is_locked_readonly(&key), shared.is_locked_readonly(&key));
        assert_eq!(locks.is_locked_write(&key), shared.is_locked_write(&key));
    }

    let keys = batch();
    for i in [4, 0, 2] {
        locks.unlock_accounts(keys[i].as_ref().unwrap());
        shared.unlock_accounts(keys[i].as_ref().unwrap());
    }
    assert_eq!(locks.write_locks.len(), 0);
    assert_eq!(locks.readonly_locks.len(), 1);
    assert!(locks.is_locked_readonly(&held[0].0));
    assert_eq!(shared.locks.len(), 1);
}

#[test]
fn concurrent_locks_are_all_or_nothing() {
    let mut locks = ConcurrentAccountLocks::default();
    assert_eq!(
        locks.try_lock_accounts(&vec![lock(1, true), lock(2, false)]),
        Ok(())
    );
    assert_eq!(
        locks.try_lock_accounts(&vec![lock(3, true), lock(2, false), lock(1, false)]),
        Err(TransactionLockError::AccountInUse)
    );
    assert!(!locks.is_locked_write(&lock(3, true).0));
    assert!(locks.is_locked_write(&lock(1, true).0));
    assert!(locks.is_locked_readonly(&lock(2, false).0));
    let outcomes = locks.try_lock_transaction_batch(vec![
        Ok(vec![lock(2, false)]),
        Ok(vec![lock(2, true)]),
        Err(TransactionLockError::Other(TransactionError::BlockhashNotFound)),
    ]);
    assert_eq!(outcomes[0], Ok(()));
    assert_eq!(outcomes[1], Err(TransactionLockError::AccountInUse));
    assert_eq!(
        outcomes[2],
        Err(TransactionLockError::Other(TransactionError::BlockhashNotFound))
    );
    locks.unlock_accounts(&vec![lock(1, true), lock(2, false)]);
    assert!(!locks.is_locked_write(&lock(1, true).0));
    assert!(locks.is_locked_readonly(&lock(2, false).0));
    locks.unlock_accounts(&vec![lock(2, false)]);
    assert!(!locks.is_locked_readonly(&lock(2, false).0));
}
