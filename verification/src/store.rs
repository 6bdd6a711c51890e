//! In-memory ledger store: accounts and transactions keyed by user, with
//! the row-id bookkeeping, uniqueness and referential constraints the
//! persisted schema promises, and the account-opening lifecycle whose two
//! inserts are atomic — a failure leaves the store exactly as it was, so
//! no reader ever sees an account without its opening transaction.
use vstd::prelude::*;

use crate::ledger::{Account, Transaction, User};
use crate::money::{get_money_from_string, parse_ok, parse_val};

verus! {

/// A storage fault: the store cannot take the row.
#[derive(Debug, PartialEq, Eq)]
pub struct StoreError;

/// Creating a user failed: the email is taken or the store is full.
#[derive(Debug)]
pub struct CreateError;

/// Why opening an account failed.
#[derive(Debug, PartialEq, Eq)]
pub enum OpenAccountError {
    /// The starting balance could not be read as a money value.
    InvalidMoneyFormat,
    /// The account row itself could not be inserted.
    AccountCreationFailed,
    /// The account row went in but its opening transaction could not;
    /// the account insert is rolled back so no dangling account remains.
    OpeningTransactionFailed,
}

/// Some stored account carries this id.
pub open spec fn has_account_id(accs: Seq<Account>, id: i64) -> bool {
    exists|j: int| 0 <= j < accs.len() && (#[trigger] accs[j]).id == id
}

/// Some stored transaction belongs to this account.
pub open spec fn has_transaction_for(txs: Seq<Transaction>, account_id: i64) -> bool {
    exists|k: int| 0 <= k < txs.len() && (#[trigger] txs[k]).account_id == account_id
}

/// The accounts of `s` owned by `user_id`, in insertion order.
pub open spec fn accounts_for(s: Seq<Account>, user_id: i64) -> Seq<Account>
    decreases s.len(),
{
    if s.len() == 0 {
        Seq::empty()
    } else if s.last().user_id == user_id {
        accounts_for(s.drop_last(), user_id).push(s.last())
    } else {
        accounts_for(s.drop_last(), user_id)
    }
}

/// The transactions of `s` belonging to `account_id`, in insertion order.
pub open spec fn transactions_for(s: Seq<Transaction>, account_id: i64) -> Seq<Transaction>
    decreases s.len(),
{
    if s.len() == 0 {
        Seq::empty()
    } else if s.last().account_id == account_id {
        transactions_for(s.drop_last(), account_id).push(s.last())
    } else {
        transactions_for(s.drop_last(), account_id)
    }
}

proof fn lemma_has_account_id_push(accs: Seq<Account>, acc: Account, id: i64)
    requires
        has_account_id(accs, id),
    ensures
        has_account_id(accs.push(acc), id),
{
    let j = choose|j: int| 0 <= j < accs.len() && (#[trigger] accs[j]).id == id;
    assert(accs.push(acc)[j] == accs[j]);
}

proof fn lemma_has_transaction_for_push(txs: Seq<Transaction>, tx: Transaction, account_id: i64)
    requires
        has_transaction_for(txs, account_id),
    ensures
        has_transaction_for(txs.push(tx), account_id),
{
    let k = choose|k: int| 0 <= k < txs.len() && (#[trigger] txs[k]).account_id == account_id;
    assert(txs.push(tx)[k] == txs[k]);
}

/// The ledger store: rows live in insertion order, ids are handed out
/// from the counters, never reused.
pub struct LedgerStore {
    pub users: Vec<User>,
    pub accounts: Vec<Account>,
    pub transactions: Vec<Transaction>,
    pub next_user_id: i32,
    pub next_account_id: i64,
    pub next_transaction_id: i64,
}

fn str_eq(a: &str, b: &str) -> (r: bool)
    ensures
        r == (a@ == b@),
{
    let na = a.unicode_len();
    let nb = b.unicode_len();
    if na != nb {
        return false;
    }
    let mut i: usize = 0;
    while i < na
        invariant
            i <= na,
            na == a@.len(),
            na == b@.len(),
            forall|j: int| 0 <= j < i ==> a@[j] == b@[j],
        decreases na - i,
    {
        if a.get_char(i) != b.get_char(i) {
            return false;
        }
        i += 1;
    }
    proof {
        assert(a@ =~= b@);
    }
    true
}

impl LedgerStore {
    /// Well-formedness: row ids stay below their counter and are pairwise
    /// distinct, user emails are unique, and every transaction points at
    /// a stored account.
    pub open spec fn wf(self) -> bool {
        &&& 1 <= self.next_user_id
        &&& 1 <= self.next_account_id
        &&& 1 <= self.next_transaction_id
        &&& forall|i: int, j: int|
            0 <= i < j < self.users@.len() ==> self.users@[i].email@ != self.users@[j].email@
        &&& forall|i: int|
            0 <= i < self.accounts@.len() ==> 1 <= (#[trigger] self.accounts@[i]).id
                < self.next_account_id
        &&& forall|i: int, j: int|
            0 <= i < j < self.accounts@.len() ==> self.accounts@[i].id != self.accounts@[j].id
        &&& forall|i: int|
            0 <= i < self.transactions@.len() ==> 1 <= (#[trigger] self.transactions@[i]).id
                < self.next_transaction_id
        &&& forall|i: int, j: int|
            0 <= i < j < self.transactions@.len() ==> self.transactions@[i].id
                != self.transactions@[j].id
        &&& forall|i: int|
            0 <= i < self.transactions@.len() ==> has_account_id(
                self.accounts@,
                (#[trigger] self.transactions@[i]).account_id,
            )
    }

    /// Every stored account carries at least one transaction. Raw
    /// `insert_account` breaks this transiently; `create_account` and
    /// `open_account` preserve it, so a store driven through the
    /// lifecycle never shows a reader an account without its opening
    /// entry.
    pub open spec fn complete(self) -> bool {
        forall|i: int|
            0 <= i < self.accounts@.len() ==> has_transaction_for(
                self.transactions@,
                (#[trigger] self.accounts@[i]).id,
            )
    }

    /// An empty store.
    pub fn new() -> (r: Self)
        ensures
            r.wf(),
            r.complete(),
            r.users@.len() == 0,
            r.accounts@.len() == 0,
            r.transactions@.len() == 0,
            r.next_user_id == 1,
            r.next_account_id == 1,
            r.next_transaction_id == 1,
    {
        LedgerStore {
            users: Vec::new(),
            accounts: Vec::new(),
            transactions: Vec::new(),
            next_user_id: 1,
            next_account_id: 1,
            next_transaction_id: 1,
        }
    }

    fn has_account(&self, account_id: i64) -> (r: bool)
        ensures
            r == has_account_id(self.accounts@, account_id),
    {
        let n = self.accounts.len();
        let mut i: usize = 0;
        while i < n
            invariant
                i <= n,
                n == self.accounts@.len(),
                forall|j: int| 0 <= j < i ==> (#[trigger] self.accounts@[j]).id != account_id,
            decreases n - i,
        {
            if self.accounts[i].id == account_id {
                return true;
            }
            i += 1;
        }
        false
    }

    /// Looks a user up by email; `None` exactly when no stored user has
    /// that email.
    pub fn get_user_by_email(&self, email: &str) -> (r: Option<User>)
        ensures
            r is Some <==> exists|j: int|
                0 <= j < self.users@.len() && (#[trigger] self.users@[j]).email@ == email@,
            r matches Some(u) ==> u.email@ == email@ && exists|j: int|
                0 <= j < self.users@.len() && (#[trigger] self.users@[j]) == u,
    {
        let n = self.users.len();
        let mut i: usize = 0;
        while i < n
            invariant
                i <= n,
                n == self.users@.len(),
                forall|j: int| 0 <= j < i ==> (#[trigger] self.users@[j]).email@ != email@,
            decreases n - i,
        {
            if str_eq(self.users[i].email.as_str(), email) {
                return Some(self.users[i].clone());
            }
            i += 1;
        }
        None
    }

    /// Authenticates a login attempt: the stored user with this email,
    /// and only when bcrypt confirms the password against the stored
    /// hash.
    pub fn auth_user(&self, email: &str, password: &str) -> (r: Option<User>)
        ensures
            r matches Some(u) ==> u.email@ == email@ && crate::ledger::bcrypt_matches(
                password@,
                u.password@,
            ) && exists|j: int| 0 <= j < self.users@.len() && (#[trigger] self.users@[j]) == u,
            (forall|j: int| 0 <= j < self.users@.len() ==> (#[trigger] self.users@[j]).email@
                != email@) ==> r is None,
    {
        match self.get_user_by_email(email) {
            Some(u) => {
                if crate::ledger::check_credentials(&u, password) {
                    Some(u)
                } else {
                    None
                }
            },
            None => None,
        }
    }

    /// Stores a new user with a fresh id. Fails exactly when the email is
    /// already taken or the id space is exhausted; a failure leaves the
    /// store unchanged.
    #[verifier::loop_isolation(false)]
    pub fn create_user(&mut self, user: User) -> (r: Result<bool, CreateError>)
        requires
            old(self).wf(),
        ensures
            final(self).wf(),
            r is Ok <==> (forall|j: int|
                0 <= j < old(self).users@.len() ==> (#[trigger] old(self).users@[j]).email@
                    != user.email@) && old(self).next_user_id < i32::MAX,
            r matches Ok(b) ==> b && final(self).users@ == old(self).users@.push(
                (User {
                    id: Some(old(self).next_user_id),
                    name: user.name,
                    email: user.email,
                    password: user.password,
                    active: user.active,
                }),
            ) && final(self).accounts@ == old(self).accounts@ && final(self).transactions@ == old(self).transactions@ && final(self).next_user_id == old(self).next_user_id + 1 && final(self).next_account_id == old(self).next_account_id && final(self).next_transaction_id
                == old(self).next_transaction_id,
            r is Err ==> *final(self) == *old(self),
            old(self).complete() ==> final(self).complete(),
    {
        let n = self.users.len();
        let mut i: usize = 0;
        while i < n
            invariant
                i <= n,
                n == self.users@.len(),
                forall|j: int| 0 <= j < i ==> (#[trigger] self.users@[j]).email@ != user.email@,
            decreases n - i,
        {
            if str_eq(self.users[i].email.as_str(), user.email.as_str()) {
                return Err(CreateError);
            }
            i += 1;
        }
        if self.next_user_id == i32::MAX {
            return Err(CreateError);
        }
        let id = self.next_user_id;
        self.next_user_id = id + 1;
        let stored = User {
            id: Some(id),
            name: user.name,
            email: user.email,
            password: user.password,
            active: user.active,
        };
        self.users.push(stored);
        proof {
            let nu = self.users@;
            let ou = old(self).users@;
            assert forall|a: int, b: int| 0 <= a < b < nu.len() implies nu[a].email@
                != nu[b].email@ by {
                if b < ou.len() {
                } else {
                    assert(nu[a] == ou[a]);
                    assert(nu[b].email@ == user.email@);
                }
            }
        }
        Ok(true)
    }

    /// The raw account insert: a new row with a fresh id, no opening
    /// transaction. Fails exactly when the id space is exhausted; a
    /// failure leaves the store unchanged.
    pub fn insert_account(&mut self, user_id: i64, name: String) -> (r: Result<i64, StoreError>)
        requires
            old(self).wf(),
        ensures
            final(self).wf(),
            r is Ok <==> old(self).next_account_id < i64::MAX,
            r matches Ok(id) ==> id == old(self).next_account_id && final(self).accounts@ == old(self).accounts@.push((Account { id: id, user_id: user_id, name: name })) && final(self).users@ == old(self).users@ && final(self).transactions@ == old(self).transactions@
                && final(self).next_account_id == old(self).next_account_id + 1 && final(self).next_user_id == old(self).next_user_id && final(self).next_transaction_id == old(self).next_transaction_id,
            r is Err ==> *final(self) == *old(self),
    {
        if self.next_account_id == i64::MAX {
            return Err(StoreError);
        }
        let id = self.next_account_id;
        self.next_account_id = id + 1;
        let ghost oa = self.accounts@;
        self.accounts.push(Account { id, user_id, name });
        proof {
            let na = self.accounts@;
            assert forall|a: int| 0 <= a < na.len() implies 1 <= (#[trigger] na[a]).id
                < self.next_account_id by {
                if a < oa.len() {
                    assert(na[a] == oa[a]);
                }
            }
            assert forall|a: int, b: int| 0 <= a < b < na.len() implies na[a].id != na[b].id by {
                if b < oa.len() {
                } else {
                    assert(na[a] == oa[a]);
                    assert(na[b].id == id);
                }
            }
            assert forall|a: int| 0 <= a < self.transactions@.len() implies has_account_id(
                na,
                (#[trigger] self.transactions@[a]).account_id,
            ) by {
                assert(old(self).transactions@[a] == self.transactions@[a]);
                lemma_has_account_id_push(
                    oa,
                    (Account { id: id, user_id: user_id, name: name }),
                    self.transactions@[a].account_id,
                );
                assert(na == oa.push((Account { id: id, user_id: user_id, name: name })));
            }
        }
        Ok(id)
    }

    /// The raw transaction insert: a new row with a fresh id. Fails
    /// exactly when no stored account has `account_id` (the referential
    /// constraint) or the id space is exhausted; a failure leaves the
    /// store unchanged.
    pub fn insert_transaction(
        &mut self,
        account_id: i64,
        date: String,
        memo: String,
        inflow: u64,
        outflow: u64,
        cleared: bool,
    ) -> (r: Result<i64, StoreError>)
        requires
            old(self).wf(),
        ensures
            final(self).wf(),
            r is Ok <==> has_account_id(old(self).accounts@, account_id) && old(self).next_transaction_id < i64::MAX,
            r matches Ok(id) ==> id == old(self).next_transaction_id && final(self).transactions@
                == old(self).transactions@.push(
                (Transaction {
                    id: id,
                    account_id: account_id,
                    date: date,
                    memo: memo,
                    inflow: inflow,
                    outflow: outflow,
                    cleared: cleared,
                }),
            ) && final(self).users@ == old(self).users@ && final(self).accounts@ == old(self).accounts@ && final(self).next_transaction_id == old(self).next_transaction_id + 1
                && final(self).next_user_id == old(self).next_user_id && final(self).next_account_id == old(self).next_account_id,
            r is Err ==> *final(self) == *old(self),
    {
        if !self.has_account(account_id) {
            return Err(StoreError);
        }
        if self.next_transaction_id == i64::MAX {
            return Err(StoreError);
        }
        let id = self.next_transaction_id;
        self.next_transaction_id = id + 1;
        let ghost ot = self.transactions@;
        self.transactions.push(Transaction { id, account_id, date, memo, inflow, outflow, cleared });
        proof {
            let nt = self.transactions@;
            assert forall|a: int| 0 <= a < nt.len() implies 1 <= (#[trigger] nt[a]).id
                < self.next_transaction_id by {
                if a < ot.len() {
                    assert(nt[a] == ot[a]);
                }
            }
            assert forall|a: int, b: int| 0 <= a < b < nt.len() implies nt[a].id != nt[b].id by {
                if b < ot.len() {
                } else {
                    assert(nt[a] == ot[a]);
                    assert(nt[b].id == id);
                }
            }
            assert forall|a: int| 0 <= a < nt.len() implies has_account_id(
                self.accounts@,
                (#[trigger] nt[a]).account_id,
            ) by {
                if a < ot.len() {
                    assert(nt[a] == ot[a]);
                } else {
                    assert(nt[a].account_id == account_id);
                }
            }
        }
        Ok(id)
    }

    /// The accounts owned by `user_id`, in insertion order.
    #[verifier::loop_isolation(false)]
    pub fn list_accounts(&self, user_id: i64) -> (r: Vec<Account>)
        ensures
            r@ == accounts_for(self.accounts@, user_id),
    {
        let n = self.accounts.len();
        let mut r: Vec<Account> = Vec::new();
        let mut i: usize = 0;
        while i < n
            invariant
                i <= n,
                r@ == accounts_for(self.accounts@.take(i as int), user_id),
            decreases n - i,
        {
            proof {
                assert(self.accounts@.take(i + 1).drop_last() =~= self.accounts@.take(i as int));
                assert(self.accounts@.take(i + 1).last() == self.accounts@[i as int]);
            }
            if self.accounts[i].user_id == user_id {
                r.push(self.accounts[i].clone());
            }
            i += 1;
        }
        proof {
            assert(self.accounts@.take(n as int) =~= self.accounts@);
        }
        r
    }

    /// The transactions of `account_id`, in insertion order.
    #[verifier::loop_isolation(false)]
    pub fn list_transactions(&self, account_id: i64) -> (r: Vec<Transaction>)
        ensures
            r@ == transactions_for(self.transactions@, account_id),
    {
        let n = self.transactions.len();
        let mut r: Vec<Transaction> = Vec::new();
        let mut i: usize = 0;
        while i < n
            invariant
                i <= n,
                r@ == transactions_for(self.transactions@.take(i as int), account_id),
            decreases n - i,
        {
            proof {
                assert(self.transactions@.take(i + 1).drop_last() =~= self.transactions@.take(
                    i as int,
                ));
                assert(self.transactions@.take(i + 1).last() == self.transactions@[i as int]);
            }
            if self.transactions[i].account_id == account_id {
                r.push(self.transactions[i].clone());
            }
            i += 1;
        }
        proof {
            assert(self.transactions@.take(n as int) =~= self.transactions@);
        }
        r
    }

    /// Creates an account together with its opening-balance transaction,
    /// as one atomic unit: on any failure the store is exactly as it was.
    /// The opening transaction carries the starting balance as its
    /// inflow, no outflow, the memo `Starting balance`, and is cleared.
    #[verifier::rlimit(100)]
    pub fn create_account(
        &mut self,
        user_id: i64,
        name: String,
        starting_balance: u64,
        date: String,
    ) -> (r: Result<i64, OpenAccountError>)
        requires
            old(self).wf(),
        ensures
            final(self).wf(),
            r is Ok <==> old(self).next_account_id < i64::MAX && old(self).next_transaction_id
                < i64::MAX,
            r == Err::<i64, OpenAccountError>(OpenAccountError::AccountCreationFailed) <==> old(self).next_account_id == i64::MAX,
            r == Err::<i64, OpenAccountError>(OpenAccountError::OpeningTransactionFailed) <==> old(self).next_account_id < i64::MAX && old(self).next_transaction_id == i64::MAX,
            r is Err ==> final(self).users@ == old(self).users@ && final(self).accounts@ == old(self).accounts@ && final(self).transactions@ == old(self).transactions@ && final(self).next_user_id == old(self).next_user_id && final(self).next_account_id == old(self).next_account_id && final(self).next_transaction_id == old(self).next_transaction_id,
            r matches Ok(account_id) ==> account_id == old(self).next_account_id && final(self).users@ == old(self).users@ && final(self).accounts@ == old(self).accounts@.push(
                (Account { id: account_id, user_id: user_id, name: name }),
            ) && final(self).transactions@.len() == old(self).transactions@.len() + 1 && final(self).transactions@.drop_last() == old(self).transactions@ && final(self).transactions@.last().id == old(self).next_transaction_id && final(self).transactions@.last().account_id == account_id && final(self).transactions@.last().memo@ == "Starting balance"@ && final(self).transactions@.last().date@ == date@ && final(self).transactions@.last().inflow
                == starting_balance && final(self).transactions@.last().outflow == 0 && final(self).transactions@.last().cleared,
            r matches Ok(account_id) ==> (forall|k: int|
                0 <= k < old(self).accounts@.len() ==> (#[trigger] old(self).accounts@[k]).id
                    != account_id) && (forall|k: int|
                0 <= k < old(self).transactions@.len() ==> (#[trigger] old(self).transactions@[k]).account_id != account_id),
            old(self).complete() ==> final(self).complete(),
    {
        let account_id = match self.insert_account(user_id, name) {
            Ok(id) => id,
            Err(_) => {
                return Err(OpenAccountError::AccountCreationFailed);
            },
        };
        let memo = "Starting balance".to_owned();
        match self.insert_transaction(account_id, date, memo, starting_balance, 0, true) {
            Ok(_) => {
                proof {
                    assert forall|k: int| 0 <= k < old(self).transactions@.len() implies (
                    #[trigger] old(self).transactions@[k]).account_id != account_id by {
                        let j = choose|j: int|
                            0 <= j < old(self).accounts@.len() && (#[trigger] old(self).accounts@[j]).id == old(self).transactions@[k].account_id;
                    }
                    assert(self.transactions@.drop_last() =~= old(self).transactions@);
                    if old(self).complete() {
                        let tx = self.transactions@.last();
                        assert(self.transactions@ =~= old(self).transactions@.push(tx));
                        assert forall|i: int| 0 <= i < self.accounts@.len() implies
                            has_transaction_for(
                            self.transactions@,
                            (#[trigger] self.accounts@[i]).id,
                        ) by {
                            if i < old(self).accounts@.len() {
                                assert(self.accounts@[i] == old(self).accounts@[i]);
                                lemma_has_transaction_for_push(
                                    old(self).transactions@,
                                    tx,
                                    old(self).accounts@[i].id,
                                );
                            } else {
                                assert(self.transactions@[self.transactions@.len() - 1].account_id
                                    == account_id);
                            }
                        }
                    }
                }
                Ok(account_id)
            },
            Err(_) => {
                // roll the account row back: the opening transaction is
                // part of the same unit of work
                let _ = self.accounts.pop();
                self.next_account_id = self.next_account_id - 1;
                proof {
                    assert(self.accounts@ =~= old(self).accounts@);
                }
                Err(OpenAccountError::OpeningTransactionFailed)
            },
        }
    }

    /// Opens an account from a user's form input: parses the starting
    /// balance with the money codec, then creates the account and its
    /// opening transaction as one atomic unit.
    pub fn open_account(
        &mut self,
        user_id: i64,
        name: String,
        starting_balance_input: String,
        date: String,
    ) -> (r: Result<i64, OpenAccountError>)
        requires
            old(self).wf(),
        ensures
            final(self).wf(),
            r is Ok <==> parse_ok(starting_balance_input@) && old(self).next_account_id < i64::MAX
                && old(self).next_transaction_id < i64::MAX,
            r == Err::<i64, OpenAccountError>(OpenAccountError::InvalidMoneyFormat) <==> !parse_ok(
                starting_balance_input@,
            ),
            r is Err ==> final(self).users@ == old(self).users@ && final(self).accounts@ == old(self).accounts@ && final(self).transactions@ == old(self).transactions@,
            r matches Ok(account_id) ==> account_id == old(self).next_account_id && final(self).users@ == old(self).users@ && final(self).accounts@ == old(self).accounts@.push(
                (Account { id: account_id, user_id: user_id, name: name }),
            ) && final(self).transactions@.len() == old(self).transactions@.len() + 1 && final(self).transactions@.drop_last() == old(self).transactions@ && final(self).transactions@.last().account_id == account_id && final(self).transactions@.last().memo@ == "Starting balance"@ && final(self).transactions@.last().date@ == date@ && final(self).transactions@.last().inflow
                == parse_val(starting_balance_input@) && final(self).transactions@.last().outflow
                == 0 && final(self).transactions@.last().cleared,
            r matches Ok(account_id) ==> (forall|k: int|
                0 <= k < old(self).accounts@.len() ==> (#[trigger] old(self).accounts@[k]).id
                    != account_id) && (forall|k: int|
                0 <= k < old(self).transactions@.len() ==> (#[trigger] old(self).transactions@[k]).account_id != account_id),
            old(self).complete() ==> final(self).complete(),
    {
        let amount = match get_money_from_string(starting_balance_input) {
            Ok(v) => v,
            Err(_) => {
                return Err(OpenAccountError::InvalidMoneyFormat);
            },
        };
        match self.create_account(user_id, name, amount as u64, date) {
            Ok(id) => Ok(id),
            Err(e) => Err(e),
        }
    }
}

} // verus!
