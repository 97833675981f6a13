use vstd::prelude::*;

use crate::address::Address;
use crate::ledger::{drained, Account, Ledger, LedgerError};

verus! {

/// An account as an instruction presents it: its address, and whether the
/// instruction may write to it.
#[derive(Clone, Copy, Debug)]
pub struct AccountRef {
    pub key: Address,
    pub is_writable: bool,
}

/// The accounts that finalizing a presale works on: the program-owned
/// presale account that is drained and closed, and the plain account that
/// receives its balance.
#[derive(Clone, Copy, Debug)]
pub struct FinalizeSale {
    pub presale_account: AccountRef,
    pub recipient: AccountRef,
}

/// Why finalizing with `accounts` on the ledger `m` for the program
/// `program` fails, or `None` where it succeeds. The checks come in this
/// order: the presale account exists and `program` owns it; the recipient
/// exists and is not state of `program`; both references are writable.
pub open spec fn finalize_error(
    m: Map<Seq<u8>, Account>,
    program: Seq<u8>,
    accounts: FinalizeSale,
) -> Option<LedgerError> {
    let p = accounts.presale_account.key@;
    let r = accounts.recipient.key@;
    if !m.contains_key(p) {
        Some(LedgerError::AccountNotFound)
    } else if m[p].owner@ != program {
        Some(LedgerError::OwnershipViolation)
    } else if !m.contains_key(r) {
        Some(LedgerError::AccountNotFound)
    } else if m[r].owner@ == program {
        Some(LedgerError::OwnershipViolation)
    } else if !accounts.presale_account.is_writable || !accounts.recipient.is_writable {
        Some(LedgerError::AccountNotWritable)
    } else {
        None
    }
}

/// The ledger `m` after a successful finalization: the presale account's
/// balance has gone to the recipient and the presale account is gone.
pub open spec fn finalized(m: Map<Seq<u8>, Account>, accounts: FinalizeSale) -> Map<Seq<u8>, Account> {
    let p = accounts.presale_account.key@;
    drained(m, p, accounts.recipient.key@).remove(p)
}

/// The balance at `k` in `m`, where a missing account counts as zero.
pub open spec fn balance_or_zero(m: Map<Seq<u8>, Account>, k: Seq<u8>) -> int {
    if m.contains_key(k) {
        m[k].lamports as int
    } else {
        0
    }
}

/// Finalizes a presale: moves the whole balance of the presale account to
/// the recipient, then closes the presale account.
///
/// Fails, and leaves the ledger as it was, with `AccountNotFound` when the
/// presale account or the recipient is missing, with `OwnershipViolation`
/// when `program_id` does not own the presale account or does own the
/// recipient, and with `AccountNotWritable` when either reference lacks
/// write permission.
pub fn finalize_sale(ledger: &mut Ledger, program_id: &Address, accounts: &FinalizeSale) -> (r: Result<(), LedgerError>)
    requires
        old(ledger).wf(),
    ensures
        final(ledger).wf(),
        final(ledger).supply() == old(ledger).supply(),
        match finalize_error(old(ledger)@, program_id@, *accounts) {
            Some(e) => r == Err::<(), LedgerError>(e) && final(ledger)@ == old(ledger)@,
            None => r is Ok && final(ledger)@ == finalized(old(ledger)@, *accounts),
        },
{
    let presale_key = &accounts.presale_account.key;
    let recipient_key = &accounts.recipient.key;
    let presale = match ledger.get(presale_key) {
        Some(a) => a,
        None => return Err(LedgerError::AccountNotFound),
    };
    if !presale.owner.same_as(program_id) {
        return Err(LedgerError::OwnershipViolation);
    }
    let recipient = match ledger.get(recipient_key) {
        Some(a) => a,
        None => return Err(LedgerError::AccountNotFound),
    };
    if recipient.owner.same_as(program_id) {
        return Err(LedgerError::OwnershipViolation);
    }
    if !accounts.presale_account.is_writable || !accounts.recipient.is_writable {
        return Err(LedgerError::AccountNotWritable);
    }
    match ledger.drain(presale_key, recipient_key) {
        Ok(_) => {},
        Err(e) => return Err(e),
    }
    ledger.close(presale_key)
}

/// Finalizing with a well-formed ledger and accounts that pass every check
/// removes the presale account, credits the recipient with exactly the
/// presale account's former balance, and leaves every other account as it
/// was.
pub proof fn lemma_finalize_credits_recipient(ledger: Ledger, program: Address, accounts: FinalizeSale)
    requires
        ledger.wf(),
        finalize_error(ledger@, program@, accounts) is None,
    ensures
        ({
            let m = ledger@;
            let after = finalized(m, accounts);
            let p = accounts.presale_account.key@;
            let r = accounts.recipient.key@;
            &&& !after.contains_key(p)
            &&& after.contains_key(r)
            &&& after[r].lamports == m[r].lamports + m[p].lamports
            &&& forall|k: Seq<u8>| k != p && k != r ==> (#[trigger] after.contains_key(k)
                == m.contains_key(k)) && (m.contains_key(k) ==> after[k] == m[k])
        }),
{
    ledger.lemma_wf_facts(accounts.presale_account.key@, accounts.recipient.key@);
}

/// A presale account that exists but is not owned by the program is
/// rejected with `OwnershipViolation`, so no balance moves.
pub proof fn lemma_foreign_presale_rejected(m: Map<Seq<u8>, Account>, program: Address, accounts: FinalizeSale)
    requires
        m.contains_key(accounts.presale_account.key@),
        m[accounts.presale_account.key@].owner@ != program@,
    ensures
        finalize_error(m, program@, accounts) == Some(LedgerError::OwnershipViolation),
{
}

/// Finalizing again after a successful finalization fails with
/// `AccountNotFound`, so the recipient is never credited twice.
pub proof fn lemma_finalize_twice_fails(ledger: Ledger, program: Address, accounts: FinalizeSale)
    requires
        ledger.wf(),
        finalize_error(ledger@, program@, accounts) is None,
    ensures
        finalize_error(finalized(ledger@, accounts), program@, accounts) == Some(
            LedgerError::AccountNotFound,
        ),
{
    ledger.lemma_wf_facts(accounts.presale_account.key@, accounts.recipient.key@);
}

/// Finalizing conserves the balance held by the presale account and the
/// recipient together, counting a missing account as zero.
pub proof fn lemma_finalize_conserves_balance(ledger: Ledger, program: Address, accounts: FinalizeSale)
    requires
        ledger.wf(),
        finalize_error(ledger@, program@, accounts) is None,
    ensures
        ({
            let m = ledger@;
            let after = finalized(m, accounts);
            let p = accounts.presale_account.key@;
            let r = accounts.recipient.key@;
            balance_or_zero(m, p) + balance_or_zero(m, r) == balance_or_zero(after, p)
                + balance_or_zero(after, r)
        }),
{
    ledger.lemma_wf_facts(accounts.presale_account.key@, accounts.recipient.key@);
}

} // verus!
