//! Capability interfaces of the three stores the authentication protocol uses.
//! Each store is described by a model: accounts by address, banned tokens as a
//! set, pending second-factor challenges by address. A backend may fail with
//! `UnexpectedError` where its contract allows it, and then leaves its model as
//! it was; a backend whose `infallible` holds never does. Reading and removing a
//! challenge fail only when none is pending.

use vstd::prelude::*;
use crate::domain::{
    BannedTokenStoreError, Email, LoginAttemptId, Password, TwoFACode, TwoFACodeStoreError, User,
    UserStoreError,
};

verus! {

pub trait UserStore {
    /// The store's own well-formedness.
    spec fn inv(&self) -> bool;

    /// The stored accounts, keyed by address.
    spec fn accounts(&self) -> Map<Seq<char>, User>;

    /// The backend never fails with `UnexpectedError`.
    spec fn infallible(&self) -> bool;

    /// Inserts `user` unless its address is taken.
    fn add_user(&mut self, user: User) -> (r: Result<(), UserStoreError>)
        requires
            old(self).inv(),
        ensures
            final(self).inv(),
            final(self).infallible() == old(self).infallible(),
            old(self).infallible() ==> r != Err::<(), UserStoreError>(UserStoreError::UnexpectedError),
            match r {
                Ok(()) => !old(self).accounts().contains_key(user.email@) && final(self).accounts()
                    == old(self).accounts().insert(user.email@, user),
                Err(UserStoreError::UserAlreadyExists) => old(self).accounts().contains_key(
                    user.email@,
                ) && final(self).accounts() == old(self).accounts(),
                Err(UserStoreError::UnexpectedError) => final(self).accounts() == old(
                    self,
                ).accounts(),
                Err(_) => false,
            },
    ;

    /// The account of `email`.
    fn get_user(&self, email: &Email) -> (r: Result<User, UserStoreError>)
        requires
            self.inv(),
        ensures
            self.infallible() ==> r != Err::<User, UserStoreError>(UserStoreError::UnexpectedError),
            match r {
                Ok(u) => self.accounts().contains_key(email@) && u == self.accounts()[email@],
                Err(UserStoreError::UserNotFound) => !self.accounts().contains_key(email@),
                Err(UserStoreError::UnexpectedError) => true,
                Err(_) => false,
            },
    ;

    /// Whether `password` is the one stored for `email`; an absent account
    /// is told apart from a wrong password.
    fn validate_user(&self, email: &Email, password: &Password) -> (r: Result<(), UserStoreError>)
        requires
            self.inv(),
        ensures
            self.infallible() ==> r != Err::<(), UserStoreError>(UserStoreError::UnexpectedError),
            match r {
                Ok(()) => self.accounts().contains_key(email@) && self.accounts()[email@].password@
                    == password@,
                Err(UserStoreError::UserNotFound) => !self.accounts().contains_key(email@),
                Err(UserStoreError::InvalidCredentials) => self.accounts().contains_key(email@)
                    && self.accounts()[email@].password@ != password@,
                Err(UserStoreError::UnexpectedError) => true,
                Err(_) => false,
            },
    ;
}

pub trait BannedTokenStore {
    spec fn inv(&self) -> bool;

    /// The banned token strings.
    spec fn banned(&self) -> Set<Seq<char>>;

    /// The backend never fails with `UnexpectedError`.
    spec fn infallible(&self) -> bool;

    /// Adds `token` to the banned set; banning twice is no error.
    fn ban_token(&mut self, token: &str) -> (r: Result<(), BannedTokenStoreError>)
        requires
            old(self).inv(),
        ensures
            final(self).inv(),
            final(self).infallible() == old(self).infallible(),
            old(self).infallible() ==> r is Ok,
            r is Ok ==> final(self).banned() == old(self).banned().insert(token@),
            r is Err ==> final(self).banned() == old(self).banned(),
    ;

    fn is_token_banned(&self, token: &str) -> (r: Result<bool, BannedTokenStoreError>)
        requires
            self.inv(),
        ensures
            self.infallible() ==> r is Ok,
            r matches Ok(b) ==> b == self.banned().contains(token@),
    ;
}

pub trait TwoFACodeStore {
    spec fn inv(&self) -> bool;

    /// The pending challenges: address to (login attempt id, code).
    spec fn codes(&self) -> Map<Seq<char>, (Seq<char>, Seq<char>)>;

    /// The backend never fails with `UnexpectedError`.
    spec fn infallible(&self) -> bool;

    /// Stores a challenge for `email`, replacing any pending one.
    fn add_code(&mut self, email: Email, login_attempt_id: LoginAttemptId, code: TwoFACode) -> (r:
        Result<(), TwoFACodeStoreError>)
        requires
            old(self).inv(),
        ensures
            final(self).inv(),
            final(self).infallible() == old(self).infallible(),
            old(self).infallible() ==> r is Ok,
            match r {
                Ok(()) => final(self).codes() == old(self).codes().insert(
                    email@,
                    (login_attempt_id@, code@),
                ),
                Err(TwoFACodeStoreError::UnexpectedError) => final(self).codes() == old(
                    self,
                ).codes(),
                Err(_) => false,
            },
    ;

    /// Drops the pending challenge of `email`; fails only when there is none.
    fn remove_code(&mut self, email: &Email) -> (r: Result<(), TwoFACodeStoreError>)
        requires
            old(self).inv(),
        ensures
            final(self).inv(),
            final(self).infallible() == old(self).infallible(),
            r is Ok <==> old(self).codes().contains_key(email@),
            r is Err ==> r == Err::<(), TwoFACodeStoreError>(
                TwoFACodeStoreError::LoginAttemptIdNotFound,
            ),
            final(self).codes() == old(self).codes().remove(email@),
    ;

    /// The pending challenge of `email`, left in place; fails only when there
    /// is none.
    fn get_code(&self, email: &Email) -> (r: Result<(LoginAttemptId, TwoFACode), TwoFACodeStoreError>)
        requires
            self.inv(),
        ensures
            r is Ok <==> self.codes().contains_key(email@),
            r matches Ok((id, code)) ==> self.codes()[email@] == (id@, code@),
            r matches Err(e) ==> e == TwoFACodeStoreError::LoginAttemptIdNotFound,
    ;
}

} // verus!
