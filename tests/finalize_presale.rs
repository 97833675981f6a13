use hypernova::address::Address;
use hypernova::finalize_presale::{finalize_sale, AccountRef, FinalizeSale};
use hypernova::ledger::{Ledger, LedgerError};

fn addr(b: u8) -> Address {
    Address::new([b; 32])
}

fn program() -> Address {
    addr(7)
}

fn system() -> Address {
    addr(0)
}

fn presale_key() -> Address {
    addr(1)
}

fn recipient_key() -> Address {
    addr(2)
}

fn accounts(presale_writable: bool, recipient_writable: bool) -> FinalizeSale {
    FinalizeSale {
        presale_account: AccountRef { key: presale_key(), is_writable: presale_writable },
        recipient: AccountRef { key: recipient_key(), is_writable: recipient_writable },
    }
}

fn ledger_with(presale_owner: Address, presale: u64, recipient: u64) -> Ledger {
    let mut l = Ledger::new();
    assert_eq!(l.open_account(presale_key(), presale_owner, presale), Ok(()));
    assert_eq!(l.open_account(recipient_key(), system(), recipient), Ok(()));
    l
}

#[test]
fn finalize_moves_balance_and_closes_presale() {
    let mut l = ledger_with(program(), 1_000_000, 500);
    assert_eq!(finalize_sale(&mut l, &program(), &accounts(true, true)), Ok(()));
    assert_eq!(l.balance_of(&recipient_key()), Some(1_000_500));
    assert!(!l.contains(&presale_key()));
    assert_eq!(l.balance_of(&presale_key()), None);
}

#[test]
fn finalize_rejects_foreign_presale() {
    let mut l = ledger_with(addr(9), 1_000_000, 500);
    assert_eq!(
        finalize_sale(&mut l, &program(), &accounts(true, true)),
        Err(LedgerError::OwnershipViolation)
    );
    assert_eq!(l.balance_of(&recipient_key()), Some(500));
    assert_eq!(l.balance_of(&presale_key()), Some(1_000_000));
}

#[test]
fn finalize_twice_fails_without_second_credit() {
    let mut l = ledger_with(program(), 1_000_000, 500);
    assert_eq!(finalize_sale(&mut l, &program(), &accounts(true, true)), Ok(()));
    assert_eq!(
        finalize_sale(&mut l, &program(), &accounts(true, true)),
        Err(LedgerError::AccountNotFound)
    );
    assert_eq!(l.balance_of(&recipient_key()), Some(1_000_500));
}

#[test]
fn finalize_conserves_the_two_balances() {
    let mut l = ledger_with(program(), 123_456, 789);
    let before = l.total();
    assert_eq!(before, 124_245);
    assert_eq!(finalize_sale(&mut l, &program(), &accounts(true, true)), Ok(()));
    assert_eq!(l.balance_of(&recipient_key()), Some(124_245));
    assert_eq!(l.total(), before);
}

#[test]
fn finalize_leaves_other_accounts_alone() {
    let mut l = ledger_with(program(), 40, 2);
    assert_eq!(l.open_account(addr(3), program(), 77), Ok(()));
    assert_eq!(finalize_sale(&mut l, &program(), &accounts(true, true)), Ok(()));
    assert_eq!(l.balance_of(&addr(3)), Some(77));
    assert_eq!(l.balance_of(&recipient_key()), Some(42));
}

#[test]
fn finalize_empty_presale() {
    let mut l = ledger_with(program(), 0, 500);
    assert_eq!(finalize_sale(&mut l, &program(), &accounts(true, true)), Ok(()));
    assert_eq!(l.balance_of(&recipient_key()), Some(500));
    assert!(!l.contains(&presale_key()));
}

#[test]
fn finalize_fills_recipient_to_largest_balance() {
    let mut l = ledger_with(program(), u64::MAX - 10, 10);
    assert_eq!(finalize_sale(&mut l, &program(), &accounts(true, true)), Ok(()));
    assert_eq!(l.balance_of(&recipient_key()), Some(u64::MAX));
}

#[test]
fn finalize_missing_presale() {
    let mut l = Ledger::new();
    assert_eq!(l.open_account(recipient_key(), system(), 500), Ok(()));
    assert_eq!(
        finalize_sale(&mut l, &program(), &accounts(true, true)),
        Err(LedgerError::AccountNotFound)
    );
    assert_eq!(l.balance_of(&recipient_key()), Some(500));
}

#[test]
fn finalize_missing_recipient() {
    let mut l = Ledger::new();
    assert_eq!(l.open_account(presale_key(), program(), 1_000), Ok(()));
    assert_eq!(
        finalize_sale(&mut l, &program(), &accounts(true, true)),
        Err(LedgerError::AccountNotFound)
    );
    assert_eq!(l.balance_of(&presale_key()), Some(1_000));
}

#[test]
fn finalize_rejects_program_owned_recipient() {
    let mut l = Ledger::new();
    assert_eq!(l.open_account(presale_key(), program(), 1_000), Ok(()));
    assert_eq!(l.open_account(recipient_key(), program(), 5), Ok(()));
    assert_eq!(
        finalize_sale(&mut l, &program(), &accounts(true, true)),
        Err(LedgerError::OwnershipViolation)
    );
    assert_eq!(l.balance_of(&presale_key()), Some(1_000));
    assert_eq!(l.balance_of(&recipient_key()), Some(5));
}

#[test]
fn finalize_rejects_presale_as_its_own_recipient() {
    let mut l = ledger_with(program(), 1_000, 5);
    let same = FinalizeSale {
        presale_account: AccountRef { key: presale_key(), is_writable: true },
        recipient: AccountRef { key: presale_key(), is_writable: true },
    };
    assert_eq!(finalize_sale(&mut l, &program(), &same), Err(LedgerError::OwnershipViolation));
    assert_eq!(l.balance_of(&presale_key()), Some(1_000));
}

#[test]
fn finalize_rejects_read_only_presale() {
    let mut l = ledger_with(program(), 1_000, 5);
    assert_eq!(
        finalize_sale(&mut l, &program(), &accounts(false, true)),
        Err(LedgerError::AccountNotWritable)
    );
    assert_eq!(l.balance_of(&presale_key()), Some(1_000));
    assert_eq!(l.balance_of(&recipient_key()), Some(5));
}

#[test]
fn finalize_rejects_read_only_recipient() {
    let mut l = ledger_with(program(), 1_000, 5);
    assert_eq!(
        finalize_sale(&mut l, &program(), &accounts(true, false)),
        Err(LedgerError::AccountNotWritable)
    );
    assert_eq!(l.balance_of(&recipient_key()), Some(5));
}

#[test]
fn close_refuses_account_with_balance() {
    let mut l = ledger_with(program(), 1_000, 5);
    assert_eq!(l.close(&presale_key()), Err(LedgerError::DeallocationConflict));
    assert_eq!(l.balance_of(&presale_key()), Some(1_000));
}

#[test]
fn close_missing_account() {
    let mut l = Ledger::new();
    assert_eq!(l.close(&presale_key()), Err(LedgerError::AccountNotFound));
}

#[test]
fn drain_then_close() {
    let mut l = ledger_with(program(), 300, 5);
    assert_eq!(l.drain(&presale_key(), &recipient_key()), Ok(300));
    assert_eq!(l.balance_of(&presale_key()), Some(0));
    assert_eq!(l.balance_of(&recipient_key()), Some(305));
    assert_eq!(l.close(&presale_key()), Ok(()));
    assert!(!l.contains(&presale_key()));
    assert_eq!(l.total(), 305);
}

#[test]
fn drain_to_same_account_changes_nothing() {
    let mut l = ledger_with(program(), 300, 5);
    assert_eq!(l.drain(&presale_key(), &presale_key()), Ok(300));
    assert_eq!(l.balance_of(&presale_key()), Some(300));
}

#[test]
fn drain_missing_account() {
    let mut l = ledger_with(program(), 300, 5);
    assert_eq!(l.drain(&addr(4), &recipient_key()), Err(LedgerError::AccountNotFound));
    assert_eq!(l.drain(&presale_key(), &addr(4)), Err(LedgerError::AccountNotFound));
    assert_eq!(l.balance_of(&presale_key()), Some(300));
}

#[test]
fn open_account_twice() {
    let mut l = ledger_with(program(), 300, 5);
    assert_eq!(l.open_account(presale_key(), system(), 1), Err(LedgerError::AccountExists));
    assert_eq!(l.get(&presale_key()).map(|a| a.lamports), Some(300));
}

#[test]
fn open_account_past_supply() {
    let mut l = ledger_with(program(), u64::MAX - 5, 5);
    assert_eq!(l.open_account(addr(3), system(), 1), Err(LedgerError::SupplyOverflow));
    assert!(!l.contains(&addr(3)));
    assert_eq!(l.total(), u64::MAX);
}

#[test]
fn addresses_compare_by_bytes() {
    let mut bytes = [5u8; 32];
    assert!(Address::new(bytes).same_as(&addr(5)));
    bytes[31] = 6;
    assert!(!Address::new(bytes).same_as(&addr(5)));
    bytes[31] = 5;
    bytes[0] = 0;
    assert!(!Address::new(bytes).same_as(&addr(5)));
}
