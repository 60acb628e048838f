//! The identity store: user records, sign-up and login payloads, and the
//! projections returned to clients.

use vstd::prelude::*;

verus! {

/// One stored user. The hash is never returned to clients.
#[derive(Debug)]
pub struct User {
    pub id: i32,
    pub email: String,
    pub password_hash: String,
}

impl Clone for User {
    fn clone(&self) -> (r: Self)
        ensures
            r == *self,
    {
        User { id: self.id, email: self.email.clone(), password_hash: self.password_hash.clone() }
    }
}

/// The sign-up request body. The `password_hash` field carries the raw
/// password; it is stored only after hashing.
#[derive(Debug)]
pub struct NewUser {
    pub email: String,
    pub password_hash: String,
}

/// The login request body; `password_hash` again carries the raw password.
#[derive(Debug)]
pub struct LoginRequest {
    pub email: String,
    pub password_hash: String,
}

/// What sign-up returns: the user without the hash.
#[derive(Debug)]
pub struct PublicUser {
    pub id: i32,
    pub email: String,
}

/// What login returns.
#[derive(Debug)]
pub struct TokenResponse {
    pub token: String,
}

/// Whether some user carries this email.
pub open spec fn has_user_email(users: Seq<User>, email: Seq<char>) -> bool {
    exists|i: int| 0 <= i < users.len() && users[i].email@ == email
}

/// Finds the user with this email, if any.
pub fn find_user_by_email(users: &Vec<User>, email: &str) -> (r: Option<usize>)
    ensures
        match r {
            Some(i) => i < users@.len() && users@[i as int].email@ == email@,
            None => !has_user_email(users@, email@),
        },
{
    let mut i: usize = 0;
    while i < users.len()
        invariant
            0 <= i <= users@.len(),
            forall|k: int| 0 <= k < i ==> users@[k].email@ != email@,
        decreases users@.len() - i,
    {
        if crate::text::str_eq(users[i].email.as_str(), email) {
            return Some(i);
        }
        i = i + 1;
    }
    None
}

} // verus!

verus! {

use crate::errors::ApiError;
use crate::store::{users_wf, Store};

/// Whether bcrypt's verification accepts this password against this
/// stored hash; a function of the two strings alone.
pub uninterp spec fn password_matches(password: Seq<char>, hash: Seq<char>) -> bool;

/// Relies on bcrypt::hash with the crate's default cost: on success it
/// returns a salted hash that bcrypt::verify accepts for the password,
/// always rendered in the 60-character bcrypt format.
#[verifier::external_body]
fn bcrypt_hash(password: &str) -> (r: Option<String>)
    ensures
        r matches Some(h) ==> password_matches(password@, h@) && h@.len() == 60,
{
    bcrypt::hash(password, bcrypt::DEFAULT_COST).ok()
}

/// Relies on bcrypt::verify: it recomputes the hash from the password and
/// the salt carried inside `hash`, so the outcome depends on the two
/// strings alone; a malformed hash verifies as a mismatch.
#[verifier::external_body]
fn bcrypt_verify(password: &str, hash: &str) -> (r: bool)
    ensures
        r == password_matches(password@, hash@),
{
    bcrypt::verify(password, hash).unwrap_or(false)
}

/// The user carrying this email; meaningful only when one exists.
pub open spec fn user_with_email(users: Seq<User>, email: Seq<char>) -> User {
    let i = choose|i: int| 0 <= i < users.len() && users[i].email@ == email;
    users[i]
}

/// With emails unique, any matching index yields the row that
/// `user_with_email` names.
pub proof fn lemma_user_with_email_agrees(users: Seq<User>, email: Seq<char>, i: int, next: i32)
    requires
        users_wf(users, next),
        0 <= i < users.len(),
        users[i].email@ == email,
    ensures
        user_with_email(users, email) == users[i],
{
    let j = choose|j: int| 0 <= j < users.len() && users[j].email@ == email;
    if i != j {
        if i < j {
            assert(users[i].email@ != users[j].email@);
        } else {
            assert(users[j].email@ != users[i].email@);
        }
    }
}

/// What a successful sign-up did: one user appended whose stored hash
/// verifies against the submitted password and is a 60-character bcrypt
/// hash — in particular never the raw password itself, unless the raw
/// password happens to be 60 characters long — and nothing else touched.
pub open spec fn sign_up_ok(s0: Store, s1: Store, new_user: NewUser, resp: PublicUser) -> bool {
    &&& s0.same_but_users(s1)
    &&& s1.next_user_id == s0.next_user_id + 1
    &&& s1.users@.len() == s0.users@.len() + 1
    &&& forall|k: int| 0 <= k < s0.users@.len() ==> s1.users@[k] == s0.users@[k]
    &&& s1.users@.last().id == s0.next_user_id
    &&& s1.users@.last().email@ == new_user.email@
    &&& password_matches(new_user.password_hash@, s1.users@.last().password_hash@)
    &&& s1.users@.last().password_hash@.len() == 60
    &&& new_user.password_hash@.len() != 60 ==> s1.users@.last().password_hash@
        != new_user.password_hash@
    &&& resp.id == s0.next_user_id
    &&& resp.email@ == new_user.email@
}

impl Store {
    /// Inserts a user row with an already-computed hash; an email that is
    /// already registered is a conflict, and an error leaves the store
    /// exactly as it was.
    pub fn insert_user(&mut self, email: String, password_hash: String) -> (r: Result<
        PublicUser,
        ApiError,
    >)
        requires
            old(self).wf(),
            old(self).next_user_id < i32::MAX,
        ensures
            final(self).wf(),
            r matches Err(e) ==> *final(self) == *old(self) && e == ApiError::EmailExists
                && has_user_email(old(self).users@, email@),
            r matches Ok(resp) ==> {
                &&& !has_user_email(old(self).users@, email@)
                &&& old(self).same_but_users(*final(self))
                &&& final(self).next_user_id == old(self).next_user_id + 1
                &&& final(self).users@.len() == old(self).users@.len() + 1
                &&& forall|k: int|
                    0 <= k < old(self).users@.len() ==> final(self).users@[k] == old(self).users@[k]
                &&& final(self).users@.last().id == old(self).next_user_id
                &&& final(self).users@.last().email@ == email@
                &&& final(self).users@.last().password_hash@ == password_hash@
                &&& resp.id == old(self).next_user_id
                &&& resp.email@ == email@
            },
    {
        if find_user_by_email(&self.users, email.as_str()).is_some() {
            return Err(ApiError::EmailExists);
        }
        let uid = self.next_user_id;
        let ghost users0 = self.users@;
        let row = User { id: uid, email, password_hash };
        let resp = PublicUser { id: uid, email: row.email.clone() };
        proof {
            let s = users0.push(row);
            assert(s.len() == users0.len() + 1);
            assert forall|i: int| 0 <= i < s.len() implies 0 < (#[trigger] s[i]).id < uid + 1 by {
                if i < users0.len() {
                    assert(s[i] == users0[i]);
                    assert(0 < users0[i].id < uid);
                } else {
                    assert(s[i] == row);
                }
            }
            assert forall|i: int, j: int| 0 <= i < j < s.len() implies #[trigger] s[i].id
                != #[trigger] s[j].id by {
                if j == users0.len() {
                    assert(s[i] == users0[i]);
                    assert(s[j] == row);
                } else {
                    assert(s[i] == users0[i]);
                    assert(s[j] == users0[j]);
                }
            }
            assert forall|i: int, j: int| 0 <= i < j < s.len() implies #[trigger] s[i].email@
                != #[trigger] s[j].email@ by {
                if j == users0.len() {
                    assert(s[i] == users0[i]);
                    assert(s[j] == row);
                    assert(!(users0[i].email@ == row.email@));
                } else {
                    assert(s[i] == users0[i]);
                    assert(s[j] == users0[j]);
                }
            }
        }
        self.users.push(row);
        self.next_user_id = uid + 1;
        Ok(resp)
    }

    /// Registers a user: the password is hashed with a salted adaptive
    /// hash and only the hash is stored; an email that is already
    /// registered is a conflict, and the response never carries the hash.
    /// When the email is free, only a hashing failure stands between the
    /// caller and success.
    pub fn sign_up(&mut self, new_user: NewUser) -> (r: Result<PublicUser, ApiError>)
        requires
            old(self).wf(),
            old(self).next_user_id < i32::MAX,
        ensures
            final(self).wf(),
            r matches Err(e) ==> *final(self) == *old(self) && (e == ApiError::EmailExists || e
                == ApiError::HashingFailed) && (e == ApiError::EmailExists ==> has_user_email(
                old(self).users@,
                new_user.email@,
            )),
            has_user_email(old(self).users@, new_user.email@) ==> r is Err,
            !has_user_email(old(self).users@, new_user.email@) ==> (r is Ok || r == Err::<
                PublicUser,
                ApiError,
            >(ApiError::HashingFailed)),
            r matches Ok(resp) ==> !has_user_email(old(self).users@, new_user.email@) && sign_up_ok(
                *old(self),
                *final(self),
                new_user,
                resp,
            ),
    {
        let hashed = match bcrypt_hash(new_user.password_hash.as_str()) {
            Some(h) => h,
            None => {
                return Err(ApiError::HashingFailed);
            },
        };
        self.insert_user(new_user.email, hashed)
    }

    /// Logs a user in: an unknown email and a wrong password collapse to
    /// the same uniform failure, and with matching credentials the login
    /// always succeeds, returning the signed bearer token for the user,
    /// expiring one day after `now`.
    pub fn login(&self, payload: LoginRequest, now: u64, secret: &str) -> (r: Result<
        TokenResponse,
        ApiError,
    >)
        requires
            self.wf(),
            now + 86400 <= u64::MAX,
        ensures
            !has_user_email(self.users@, payload.email@) ==> r == Err::<TokenResponse, ApiError>(
                ApiError::InvalidCredentials,
            ),
            has_user_email(self.users@, payload.email@) ==> {
                let u = user_with_email(self.users@, payload.email@);
                &&& !password_matches(payload.password_hash@, u.password_hash@) ==> r == Err::<
                    TokenResponse,
                    ApiError,
                >(ApiError::InvalidCredentials)
                &&& password_matches(payload.password_hash@, u.password_hash@) ==> (r matches Ok(t)
                    && t.token@ == crate::auth::token_of(u.id, (now + 86400) as u64, secret@))
            },
    {
        let idx = match find_user_by_email(&self.users, payload.email.as_str()) {
            Some(i) => i,
            None => {
                return Err(ApiError::InvalidCredentials);
            },
        };
        proof {
            lemma_user_with_email_agrees(
                self.users@,
                payload.email@,
                idx as int,
                self.next_user_id,
            );
        }
        let user = &self.users[idx];
        if !bcrypt_verify(payload.password_hash.as_str(), user.password_hash.as_str()) {
            return Err(ApiError::InvalidCredentials);
        }
        let token = crate::auth::generate_jwt(user.id, now, secret);
        Ok(TokenResponse { token })
    }
}

} // verus!
