//! Ledger data model: users, accounts and transactions, and the
//! password-hashing boundary used when a user record is built from a
//! sign-up form or checked at login.
use vstd::prelude::*;

verus! {

/// A registered user of the budgeting application.
pub struct User {
    pub id: Option<i32>,
    pub name: String,
    pub email: String,
    pub password: String,
    pub active: bool,
}

/// A financial account owned by one user.
pub struct Account {
    pub id: i64,
    pub user_id: i64,
    pub name: String,
}

/// One row of an account's ledger. Inflow and outflow are non-negative
/// counts of minor currency units; both are summed independently when a
/// balance is computed.
pub struct Transaction {
    pub id: i64,
    pub account_id: i64,
    pub date: String,
    pub memo: String,
    pub inflow: u64,
    pub outflow: u64,
    pub cleared: bool,
}

/// Password hashing failed.
#[derive(Debug)]
pub struct HashError;

impl Clone for User {
    fn clone(&self) -> (res: Self)
        ensures
            res == self,
    {
        User {
            id: if let Some(i) = self.id {
                Some(i)
            } else {
                None
            },
            name: self.name.clone(),
            email: self.email.clone(),
            password: self.password.clone(),
            active: self.active,
        }
    }
}

impl Clone for Account {
    fn clone(&self) -> (res: Self)
        ensures
            res == self,
    {
        Account { id: self.id, user_id: self.user_id, name: self.name.clone() }
    }
}

impl Clone for Transaction {
    fn clone(&self) -> (res: Self)
        ensures
            res == self,
    {
        Transaction {
            id: self.id,
            account_id: self.account_id,
            date: self.date.clone(),
            memo: self.memo.clone(),
            inflow: self.inflow,
            outflow: self.outflow,
            cleared: self.cleared,
        }
    }
}

/// Names the outcome of bcrypt's password check: whether `password`
/// matches the salted `hash`. The salt and cost are read back out of the
/// hash string itself, so the outcome is a function of the two arguments
/// alone.
pub uninterp spec fn bcrypt_matches(password: Seq<char>, hash: Seq<char>) -> bool;

/// Relies on bcrypt::hash: produces a salted hash in the 60-character
/// modular crypt format. The salt is drawn fresh from the operating
/// system, so no two calls need agree; it errs when the cost is outside
/// bcrypt's allowed range or no randomness is available.
#[verifier::external_body]
fn bcrypt_hash(password: &str, cost: u32) -> (r: Result<String, ()>)
    ensures
        r matches Ok(h) ==> h@.len() == 60,
{
    match bcrypt::hash(password.as_bytes(), cost) {
        Ok(h) => Ok(h),
        Err(_) => Err(()),
    }
}

/// Relies on bcrypt::verify: re-derives the hash from the password and
/// from the salt and cost stored in `hash`, and compares. The result is
/// deterministic in the two arguments; it errs when `hash` is not a
/// well-formed bcrypt hash string.
#[verifier::external_body]
fn bcrypt_verify(password: &str, hash: &str) -> (r: Result<bool, ()>)
    ensures
        r matches Ok(b) ==> b == bcrypt_matches(password@, hash@),
{
    match bcrypt::verify(password.as_bytes(), hash) {
        Ok(b) => Ok(b),
        Err(_) => Err(()),
    }
}

/// The decision a login applies to bcrypt's answer: the attempt stands
/// exactly when the check ran and confirmed the password.
pub fn login_decision(verified: Result<bool, ()>) -> (r: bool)
    ensures
        r == (verified == Ok::<bool, ()>(true)),
{
    match verified {
        Ok(true) => true,
        _ => false,
    }
}

/// Checks a login attempt against a stored user record; accepted only
/// when bcrypt confirms the password against the stored hash.
pub fn check_credentials(user: &User, password: &str) -> (r: bool)
    ensures
        r ==> bcrypt_matches(password@, user.password@),
{
    login_decision(bcrypt_verify(password, user.password.as_str()))
}

impl User {
    /// Hashes a plaintext password with bcrypt at the application's fixed
    /// cost.
    pub fn hash_password(password: String) -> (r: Result<String, HashError>)
        ensures
            r matches Ok(h) ==> h@.len() == 60,
    {
        match bcrypt_hash(password.as_str(), 10) {
            Ok(v) => Ok(v),
            _ => Err(HashError),
        }
    }

    /// Builds the user record a sign-up form submits: active, without an
    /// id yet, holding the hash of the given password rather than the
    /// password itself.
    pub fn from_form(name: String, email: String, password: String) -> (r: Result<Self, HashError>)
        ensures
            r matches Ok(u) ==> u.id is None && u.name@ == name@ && u.email@ == email@ && u.active
                && u.password@.len() == 60,
    {
        match Self::hash_password(password) {
            Ok(v) => Ok(Self { id: None, name, email, password: v, active: true }),
            _ => Err(HashError),
        }
    }

    /// Rebuilds a user record from its stored columns; the id is left
    /// unset, as a freshly fetched row does not carry one here.
    pub fn from_db(name: String, email: String, password: String, active: bool) -> (r: Self)
        ensures
            r.id is None,
            r.name@ == name@,
            r.email@ == email@,
            r.password@ == password@,
            r.active == active,
    {
        Self { id: None, name, email, active, password }
    }
}

} // verus!
