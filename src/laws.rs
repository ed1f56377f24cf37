//! Laws that relate several operations of the library.

use vstd::prelude::*;
use crate::domain::{is_valid_email, User, UserStoreError};
use crate::routes::matches_challenge;
use crate::services::{add_user_model, add_user_result, validate_user_result};
use crate::token::{hmac_sha256, lemma_token_parts, payload_of, token_of, verdict, TokenError};

verus! {

/// Adding the same account twice: the second attempt fails with
/// `UserAlreadyExists` and leaves the accounts as the first one left them.
pub proof fn law_add_user_twice(accounts: Map<Seq<char>, User>, user: User)
    ensures
        add_user_result(add_user_model(accounts, user), user) == Err::<(), UserStoreError>(
            UserStoreError::UserAlreadyExists,
        ),
        add_user_model(add_user_model(accounts, user), user) == add_user_model(accounts, user),
        add_user_model(accounts, user).contains_key(user.email@),
{
}

/// A registered pair of address and password validates; changing one
/// character of the password makes validation fail with `InvalidCredentials`,
/// which is no format error.
pub proof fn law_validate_registered(
    accounts: Map<Seq<char>, User>,
    email: Seq<char>,
    i: int,
    c: char,
)
    requires
        accounts.contains_key(email),
        0 <= i < accounts[email].password@.len(),
        accounts[email].password@[i] != c,
    ensures
        validate_user_result(accounts, email, accounts[email].password@) == Ok::<(), UserStoreError>(
            (),
        ),
        validate_user_result(accounts, email, accounts[email].password@.update(i, c)) == Err::<
            (),
            UserStoreError,
        >(UserStoreError::InvalidCredentials),
{
    let p = accounts[email].password@;
    assert(p.update(i, c)[i] != p[i]);
}

/// A token verifies, up to its expiry, to the subject it was issued for.
pub proof fn law_token_round_trip(
    key: Seq<u8>,
    subject: Seq<char>,
    issued_at: u64,
    expires_at: u64,
    now: nat,
)
    requires
        is_valid_email(subject),
        hmac_sha256(key, payload_of(subject, issued_at as nat, expires_at as nat)).len() == 32,
        now < expires_at,
    ensures
        verdict(key, token_of(key, subject, issued_at as nat, expires_at as nat), now) == Ok::<
            Seq<char>,
            TokenError,
        >(subject),
{
    lemma_token_parts(key, subject, issued_at, expires_at);
}

/// Banning a token refuses it from then on, even where its signature and
/// expiry still verify.
pub proof fn law_revocation(key: Seq<u8>, banned: Set<Seq<char>>, token: Seq<char>, now: nat)
    ensures
        !crate::routes::token_accepted(key, banned.insert(token), token, now),
{
}

/// The banned set after banning each of `tokens` in turn.
pub open spec fn ban_all(banned: Set<Seq<char>>, tokens: Seq<Seq<char>>) -> Set<Seq<char>>
    decreases tokens.len(),
{
    if tokens.len() == 0 {
        banned
    } else {
        ban_all(banned, tokens.drop_last()).insert(tokens.last())
    }
}

/// A banned token stays banned whatever is banned after it, so it is refused
/// from then on.
pub proof fn law_revocation_persists(
    key: Seq<u8>,
    banned: Set<Seq<char>>,
    token: Seq<char>,
    later: Seq<Seq<char>>,
    now: nat,
)
    requires
        banned.contains(token),
    ensures
        ban_all(banned, later).contains(token),
        !crate::routes::token_accepted(key, ban_all(banned, later), token, now),
    decreases later.len(),
{
    if later.len() > 0 {
        law_revocation_persists(key, banned, token, later.drop_last(), now);
    }
}

/// A second challenge for the same address replaces the first: the first id
/// and code no longer match, unless both are the same as the second's.
pub proof fn law_challenge_superseded(
    codes: Map<Seq<char>, (Seq<char>, Seq<char>)>,
    email: Seq<char>,
    first_id: Seq<char>,
    first_code: Seq<char>,
    second_id: Seq<char>,
    second_code: Seq<char>,
)
    requires
        (first_id, first_code) != (second_id, second_code),
    ensures
        matches_challenge(codes.insert(email, (first_id, first_code)), email, first_id, first_code),
        !matches_challenge(
            codes.insert(email, (first_id, first_code)).insert(email, (second_id, second_code)),
            email,
            first_id,
            first_code,
        ),
        matches_challenge(
            codes.insert(email, (first_id, first_code)).insert(email, (second_id, second_code)),
            email,
            second_id,
            second_code,
        ),
{
}

} // verus!
