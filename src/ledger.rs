use vstd::prelude::*;

use crate::address::Address;

verus! {

/// The ways an operation on the ledger can fail. A failed operation leaves
/// the ledger as it was.
#[derive(Clone, Copy, Debug, PartialEq, Eq, Structural)]
pub enum LedgerError {
    /// No account of the ledger has the given address.
    AccountNotFound,
    /// An account is not owned as the operation demands.
    OwnershipViolation,
    /// An account was to be closed while it still held a balance.
    DeallocationConflict,
    /// An account reference lacks write permission.
    AccountNotWritable,
    /// An account with the given address exists already.
    AccountExists,
    /// The ledger's total balance would no longer fit in a `u64`.
    SupplyOverflow,
}

/// One account of the ledger: its address, the program that owns it, and
/// the native-currency balance it holds, storage deposit included.
#[derive(Clone, Copy, Debug)]
pub struct Account {
    pub key: Address,
    pub owner: Address,
    pub lamports: u64,
}

/// `a` with its balance set to `n`.
pub open spec fn with_lamports(a: Account, n: int) -> Account {
    Account { lamports: n as u64, ..a }
}

/// The ledger `m` after the whole balance of `from` has moved to `to`.
pub open spec fn drained(m: Map<Seq<u8>, Account>, from: Seq<u8>, to: Seq<u8>) -> Map<Seq<u8>, Account> {
    let amount = m[from].lamports;
    let emptied = m.insert(from, with_lamports(m[from], 0));
    emptied.insert(to, with_lamports(emptied[to], emptied[to].lamports + amount))
}

/// The sum of the balances of the accounts in `s`.
pub open spec fn total_lamports(s: Seq<Account>) -> int
    decreases s.len(),
{
    if s.len() == 0 {
        0
    } else {
        total_lamports(s.drop_last()) + s.last().lamports
    }
}

proof fn lemma_total_nonneg(s: Seq<Account>)
    ensures
        total_lamports(s) >= 0,
    decreases s.len(),
{
    if s.len() > 0 {
        lemma_total_nonneg(s.drop_last());
    }
}

proof fn lemma_total_update(s: Seq<Account>, i: int, a: Account)
    requires
        0 <= i < s.len(),
    ensures
        total_lamports(s.update(i, a)) == total_lamports(s) - s[i].lamports + a.lamports,
    decreases s.len(),
{
    if i == s.len() - 1 {
        assert(s.update(i, a).drop_last() =~= s.drop_last());
    } else {
        lemma_total_update(s.drop_last(), i, a);
        assert(s.update(i, a).drop_last() =~= s.drop_last().update(i, a));
    }
}

proof fn lemma_total_remove(s: Seq<Account>, i: int)
    requires
        0 <= i < s.len(),
    ensures
        total_lamports(s.remove(i)) == total_lamports(s) - s[i].lamports,
    decreases s.len(),
{
    if i == s.len() - 1 {
        assert(s.remove(i) =~= s.drop_last());
    } else {
        lemma_total_remove(s.drop_last(), i);
        assert(s.remove(i).drop_last() =~= s.drop_last().remove(i));
    }
}

proof fn lemma_total_push(s: Seq<Account>, a: Account)
    ensures
        total_lamports(s.push(a)) == total_lamports(s) + a.lamports,
{
    assert(s.push(a).drop_last() =~= s);
}

proof fn lemma_total_pair(s: Seq<Account>, i: int, j: int)
    requires
        0 <= i < s.len(),
        0 <= j < s.len(),
        i != j,
    ensures
        s[i].lamports + s[j].lamports <= total_lamports(s),
    decreases s.len(),
{
    let last = s.len() - 1;
    if i == last {
        lemma_total_update(s.drop_last(), j, s[j]);
        lemma_total_single(s.drop_last(), j);
    } else if j == last {
        lemma_total_single(s.drop_last(), i);
    } else {
        lemma_total_pair(s.drop_last(), i, j);
    }
}

proof fn lemma_total_single(s: Seq<Account>, i: int)
    requires
        0 <= i < s.len(),
    ensures
        s[i].lamports <= total_lamports(s),
    decreases s.len(),
{
    if i == s.len() - 1 {
        lemma_total_nonneg(s.drop_last());
    } else {
        lemma_total_single(s.drop_last(), i);
    }
}

proof fn lemma_total_prefix(s: Seq<Account>, n: int)
    requires
        0 <= n <= s.len(),
    ensures
        total_lamports(s.subrange(0, n)) <= total_lamports(s),
    decreases s.len(),
{
    if n < s.len() {
        assert(s.drop_last().subrange(0, n) =~= s.subrange(0, n));
        lemma_total_prefix(s.drop_last(), n);
    } else {
        assert(s.subrange(0, n) =~= s);
    }
}

/// The set of accounts on the ledger, each under its own address.
///
/// Its view maps the bytes of each address to the account held there. The
/// balances of all accounts together fit in a `u64`, so that no transfer
/// between accounts can overflow.
pub struct Ledger {
    accounts: Vec<Account>,
    model: Ghost<Map<Seq<u8>, Account>>,
}

impl View for Ledger {
    type V = Map<Seq<u8>, Account>;

    closed spec fn view(&self) -> Map<Seq<u8>, Account> {
        self.model@
    }
}

impl Ledger {
    /// The ledger is well formed: addresses are unique, the view holds
    /// exactly the stored accounts, and the total balance fits in a `u64`.
    pub closed spec fn wf(&self) -> bool {
        &&& forall|i: int, j: int|
            0 <= i < self.accounts@.len() && 0 <= j < self.accounts@.len() && i != j
                ==> #[trigger] self.accounts@[i].key@ != #[trigger] self.accounts@[j].key@
        &&& forall|i: int|
            0 <= i < self.accounts@.len() ==> {
                &&& self.model@.contains_key(#[trigger] self.accounts@[i].key@)
                &&& self.model@[self.accounts@[i].key@] == self.accounts@[i]
            }
        &&& forall|k: Seq<u8>|
            #[trigger] self.model@.contains_key(k) ==> exists|i: int|
                0 <= i < self.accounts@.len() && #[trigger] self.accounts@[i].key@ == k
        &&& total_lamports(self.accounts@) <= u64::MAX
    }

    /// The sum of the balances of all accounts on the ledger.
    pub closed spec fn supply(&self) -> int {
        total_lamports(self.accounts@)
    }

    /// The supply of a well-formed ledger fits in a `u64`, each account sits
    /// under its own address, and two distinct accounts hold together no
    /// more than the supply.
    pub proof fn lemma_wf_facts(&self, a: Seq<u8>, b: Seq<u8>)
        requires
            self.wf(),
        ensures
            0 <= self.supply() <= u64::MAX,
            self@.contains_key(a) ==> self@[a].key@ == a,
            self@.contains_key(a) ==> self@[a].lamports <= self.supply(),
            self@.contains_key(a) && self@.contains_key(b) && a != b ==> self@[a].lamports
                + self@[b].lamports <= self.supply(),
    {
        lemma_total_nonneg(self.accounts@);
        if self@.contains_key(a) {
            let i = choose|i: int| 0 <= i < self.accounts@.len() && self.accounts@[i].key@ == a;
            lemma_total_single(self.accounts@, i);
            if self@.contains_key(b) && a != b {
                let j = choose|j: int| 0 <= j < self.accounts@.len() && self.accounts@[j].key@ == b;
                lemma_total_pair(self.accounts@, i, j);
            }
        }
    }

    /// An empty ledger.
    pub fn new() -> (r: Ledger)
        ensures
            r.wf(),
            r@ == Map::<Seq<u8>, Account>::empty(),
            r.supply() == 0,
    {
        Ledger { accounts: Vec::new(), model: Ghost(Map::empty()) }
    }

    /// The position of the account at `key`, if there is one.
    fn find(&self, key: &Address) -> (r: Option<usize>)
        requires
            self.wf(),
        ensures
            match r {
                Some(i) => {
                    &&& i < self.accounts@.len()
                    &&& self.accounts@[i as int].key@ == key@
                    &&& self@.contains_key(key@)
                    &&& self@[key@] == self.accounts@[i as int]
                },
                None => !self@.contains_key(key@),
            },
    {
        let mut i: usize = 0;
        while i < self.accounts.len()
            invariant
                self.wf(),
                0 <= i <= self.accounts@.len(),
                forall|j: int| 0 <= j < i ==> self.accounts@[j].key@ != key@,
            decreases self.accounts@.len() - i,
        {
            if self.accounts[i].key.same_as(key) {
                return Some(i);
            }
            i = i + 1;
        }
        None
    }

    /// Puts `a` at position `i`, in place of the account with the same address.
    fn replace(&mut self, i: usize, a: Account)
        requires
            old(self).wf(),
            i < old(self).accounts@.len(),
            a.key@ == old(self).accounts@[i as int].key@,
            old(self).supply() - old(self).accounts@[i as int].lamports + a.lamports <= u64::MAX,
        ensures
            final(self).wf(),
            final(self)@ == old(self)@.insert(a.key@, a),
            final(self).accounts@ == old(self).accounts@.update(i as int, a),
            final(self).supply() == old(self).supply() - old(self).accounts@[i as int].lamports
                + a.lamports,
    {
        proof {
            lemma_total_update(self.accounts@, i as int, a);
        }
        self.accounts[i] = a;
        self.model = Ghost(self.model@.insert(a.key@, a));
        assert forall|k: Seq<u8>| #[trigger] self.model@.contains_key(k) implies exists|j: int|
            0 <= j < self.accounts@.len() && #[trigger] self.accounts@[j].key@ == k by {
            if k != a.key@ {
                let j = choose|j: int| 0 <= j < old(self).accounts@.len() && old(self).accounts@[j].key@ == k;
                assert(self.accounts@[j].key@ == k);
            } else {
                assert(self.accounts@[i as int].key@ == k);
            }
        }
    }

    /// Opens an account at `key`, owned by `owner`, holding `lamports`.
    ///
    /// Fails with `AccountExists` when `key` is taken, and otherwise with
    /// `SupplyOverflow` when the ledger's total balance would pass `u64::MAX`.
    pub fn open_account(&mut self, key: Address, owner: Address, lamports: u64) -> (r: Result<(), LedgerError>)
        requires
            old(self).wf(),
        ensures
            final(self).wf(),
            old(self)@.contains_key(key@) ==> r == Err::<(), LedgerError>(LedgerError::AccountExists),
            !old(self)@.contains_key(key@) && old(self).supply() + lamports > u64::MAX ==> r == Err::<(), LedgerError>(LedgerError::SupplyOverflow),
            !old(self)@.contains_key(key@) && old(self).supply() + lamports <= u64::MAX ==> r is Ok,
            r is Ok ==> final(self)@ == old(self)@.insert(key@, Account { key, owner, lamports }),
            r is Ok ==> final(self).supply() == old(self).supply() + lamports,
            r is Err ==> *final(self) == *old(self),
    {
        if self.find(&key).is_some() {
            return Err(LedgerError::AccountExists);
        }
        let supply = self.total();
        if lamports > u64::MAX - supply {
            return Err(LedgerError::SupplyOverflow);
        }
        let a = Account { key, owner, lamports };
        proof {
            lemma_total_push(self.accounts@, a);
        }
        self.accounts.push(a);
        self.model = Ghost(self.model@.insert(key@, a));
        let last = self.accounts.len() - 1;
        assert forall|k: Seq<u8>| #[trigger] self.model@.contains_key(k) implies exists|j: int|
            0 <= j < self.accounts@.len() && #[trigger] self.accounts@[j].key@ == k by {
            if k != key@ {
                let j = choose|j: int| 0 <= j < old(self).accounts@.len() && old(self).accounts@[j].key@ == k;
                assert(self.accounts@[j].key@ == k);
            } else {
                assert(self.accounts@[last as int].key@ == k);
            }
        }
        Ok(())
    }

    /// The sum of all balances on the ledger.
    pub fn total(&self) -> (r: u64)
        requires
            self.wf(),
        ensures
            r == self.supply(),
    {
        let mut sum: u64 = 0;
        let mut i: usize = 0;
        while i < self.accounts.len()
            invariant
                self.wf(),
                0 <= i <= self.accounts@.len(),
                sum == total_lamports(self.accounts@.subrange(0, i as int)),
            decreases self.accounts@.len() - i,
        {
            proof {
                let s = self.accounts@;
                assert(s.subrange(0, i + 1).drop_last() =~= s.subrange(0, i as int));
                lemma_total_prefix(s, i as int + 1);
            }
            sum = sum + self.accounts[i].lamports;
            i = i + 1;
        }
        assert(self.accounts@.subrange(0, i as int) =~= self.accounts@);
        sum
    }

    /// Moves the whole balance of the account at `from` to the account at
    /// `to`, and returns the amount moved. Where `from` and `to` are the same
    /// address nothing changes.
    ///
    /// Fails with `AccountNotFound` when either account is missing.
    pub fn drain(&mut self, from: &Address, to: &Address) -> (r: Result<u64, LedgerError>)
        requires
            old(self).wf(),
        ensures
            final(self).wf(),
            final(self).supply() == old(self).supply(),
            !(old(self)@.contains_key(from@) && old(self)@.contains_key(to@)) ==> r == Err::<u64, LedgerError>(LedgerError::AccountNotFound),
            old(self)@.contains_key(from@) && old(self)@.contains_key(to@) ==> r == Ok::<u64, LedgerError>(old(self)@[from@].lamports),
            r is Ok ==> final(self)@ == drained(old(self)@, from@, to@),
            r is Err ==> *final(self) == *old(self),
    {
        let fi = match self.find(from) {
            Some(i) => i,
            None => return Err(LedgerError::AccountNotFound),
        };
        let ti = match self.find(to) {
            Some(i) => i,
            None => return Err(LedgerError::AccountNotFound),
        };
        let amount = self.accounts[fi].lamports;
        let mut emptied = self.accounts[fi];
        emptied.lamports = 0;
        self.replace(fi, emptied);
        proof {
            if fi != ti {
                lemma_total_pair(old(self).accounts@, fi as int, ti as int);
            }
        }
        let mut credited = self.accounts[ti];
        credited.lamports = credited.lamports + amount;
        self.replace(ti, credited);
        Ok(amount)
    }

    /// Closes the account at `key`, which must hold no balance, and removes
    /// it from the ledger.
    ///
    /// Fails with `AccountNotFound` when there is no such account, and with
    /// `DeallocationConflict` when it still holds a balance.
    pub fn close(&mut self, key: &Address) -> (r: Result<(), LedgerError>)
        requires
            old(self).wf(),
        ensures
            final(self).wf(),
            final(self).supply() == old(self).supply(),
            !old(self)@.contains_key(key@) ==> r == Err::<(), LedgerError>(LedgerError::AccountNotFound),
            old(self)@.contains_key(key@) && old(self)@[key@].lamports != 0 ==> r == Err::<(), LedgerError>(LedgerError::DeallocationConflict),
            old(self)@.contains_key(key@) && old(self)@[key@].lamports == 0 ==> r is Ok,
            r is Ok ==> final(self)@ == old(self)@.remove(key@),
            r is Err ==> *final(self) == *old(self),
    {
        let i = match self.find(key) {
            Some(i) => i,
            None => return Err(LedgerError::AccountNotFound),
        };
        if self.accounts[i].lamports != 0 {
            return Err(LedgerError::DeallocationConflict);
        }
        proof {
            lemma_total_remove(self.accounts@, i as int);
        }
        let ghost before = self.accounts@;
        self.accounts.remove(i);
        self.model = Ghost(self.model@.remove(key@));
        assert forall|a: int, b: int|
            0 <= a < self.accounts@.len() && 0 <= b < self.accounts@.len() && a != b
                implies #[trigger] self.accounts@[a].key@ != #[trigger] self.accounts@[b].key@ by {
            let a0 = if a < i { a } else { a + 1 };
            let b0 = if b < i { b } else { b + 1 };
            assert(before[a0].key@ != before[b0].key@);
        }
        assert forall|j: int| 0 <= j < self.accounts@.len() implies {
            &&& self.model@.contains_key(#[trigger] self.accounts@[j].key@)
            &&& self.model@[self.accounts@[j].key@] == self.accounts@[j]
        } by {
            let j0 = if j < i { j } else { j + 1 };
            assert(before[j0].key@ != before[i as int].key@);
        }
        assert forall|k: Seq<u8>| #[trigger] self.model@.contains_key(k) implies exists|j: int|
            0 <= j < self.accounts@.len() && #[trigger] self.accounts@[j].key@ == k by {
            let j0 = choose|j: int| 0 <= j < before.len() && before[j].key@ == k;
            if j0 < i {
                assert(self.accounts@[j0].key@ == k);
            } else {
                assert(self.accounts@[j0 - 1].key@ == k);
            }
        }
        Ok(())
    }

    /// Whether an account exists at `key`.
    pub fn contains(&self, key: &Address) -> (r: bool)
        requires
            self.wf(),
        ensures
            r == self@.contains_key(key@),
    {
        self.find(key).is_some()
    }

    /// The account at `key`, if there is one.
    pub fn get(&self, key: &Address) -> (r: Option<Account>)
        requires
            self.wf(),
        ensures
            r == if self@.contains_key(key@) {
                Some(self@[key@])
            } else {
                None::<Account>
            },
    {
        match self.find(key) {
            Some(i) => Some(self.accounts[i]),
            None => None,
        }
    }

    /// The balance of the account at `key`, if there is one.
    pub fn balance_of(&self, key: &Address) -> (r: Option<u64>)
        requires
            self.wf(),
        ensures
            r == if self@.contains_key(key@) {
                Some(self@[key@].lamports)
            } else {
                None::<u64>
            },
    {
        match self.find(key) {
            Some(i) => Some(self.accounts[i].lamports),
            None => None,
        }
    }
}

} // verus!
