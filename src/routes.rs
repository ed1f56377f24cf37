//! The authentication protocol: signup, login with an optional second
//! factor, logout and token verification, over any backends of the three stores.

use vstd::prelude::*;
use crate::data_stores::{BannedTokenStore, TwoFACodeStore, UserStore};
use crate::domain::BannedTokenStoreError;
use crate::domain::{
    is_valid_email, is_valid_password, is_valid_two_fa_code, AuthAPIError, Email, LoginAttemptId,
    Password, TwoFACode, User, UserStoreError,
};
use crate::token::{token_of, verdict, TokenError, TokenIssuer};

verus! {

pub struct SignupRequest {
    pub email: String,
    pub password: String,
    pub requires_2fa: bool,
}

pub struct SignupResponse {
    pub message: String,
}

pub struct LoginRequest {
    pub email: String,
    pub password: String,
}

/// What a client gets back from a second-factor login.
pub struct TwoFactorAuthResponse {
    pub message: String,
    pub login_attempt_id: String,
}

/// A successful login: a session token, or a pending second-factor challenge.
pub enum LoginResponse {
    RegularAuth(String),
    TwoFactorAuth(TwoFactorAuthResponse),
}

pub struct Verify2FARequest {
    pub email: String,
    pub login_attempt_id: String,
    pub two_fa_code: String,
}

pub struct VerifyTokenRequest {
    pub token: String,
}

/// The submission is well-formed: a valid address and a long enough password.
pub open spec fn well_formed_credentials(email: Seq<char>, password: Seq<char>) -> bool {
    is_valid_email(email) && is_valid_password(password)
}

/// `password` is the one stored for `email`.
pub open spec fn matches_account(
    accounts: Map<Seq<char>, User>,
    email: Seq<char>,
    password: Seq<char>,
) -> bool {
    accounts.contains_key(email) && accounts[email].password@ == password
}

/// Registers an account. Malformed submissions are refused before the store
/// is touched; a taken address gives `UserAlreadyExists`.
pub fn signup<U: UserStore>(users: &mut U, request: SignupRequest) -> (r: Result<
    SignupResponse,
    AuthAPIError,
>)
    requires
        old(users).inv(),
    ensures
        final(users).inv(),
        old(users).infallible() ==> r != Err::<SignupResponse, AuthAPIError>(
            AuthAPIError::UnexpectedError,
        ),
        match r {
            Ok(response) => {
                &&& well_formed_credentials(request.email@, request.password@)
                &&& !old(users).accounts().contains_key(request.email@)
                &&& final(users).accounts() == old(users).accounts().insert(
                    request.email@,
                    User { email: request.email, password: request.password, requires_2fa: request.requires_2fa },
                )
                &&& response.message@ == "User created successfully!"@
            },
            Err(AuthAPIError::InvalidCredentials) => !well_formed_credentials(
                request.email@,
                request.password@,
            ) && final(users).accounts() == old(users).accounts(),
            Err(AuthAPIError::UserAlreadyExists) => well_formed_credentials(
                request.email@,
                request.password@,
            ) && old(users).accounts().contains_key(request.email@) && final(users).accounts()
                == old(users).accounts(),
            Err(AuthAPIError::UnexpectedError) => well_formed_credentials(
                request.email@,
                request.password@,
            ) && final(users).accounts() == old(users).accounts(),
            Err(_) => false,
        },
{
    if Email::parse(request.email.clone()).is_err() || Password::parse(
        request.password.clone(),
    ).is_err() {
        return Err(AuthAPIError::InvalidCredentials);
    }
    let user = User::new(request.email, request.password, request.requires_2fa);
    match users.add_user(user) {
        Ok(()) => Ok(SignupResponse { message: String::from_str("User created successfully!") }),
        Err(UserStoreError::UserAlreadyExists) => Err(AuthAPIError::UserAlreadyExists),
        Err(_) => Err(AuthAPIError::UnexpectedError),
    }
}

/// What a login answers, and how the challenge store moves from `before` to
/// `after`, when a fresh attempt would use `login_attempt_id` and `code`.
pub open spec fn login_outcome(
    accounts: Map<Seq<char>, User>,
    before: Map<Seq<char>, (Seq<char>, Seq<char>)>,
    after: Map<Seq<char>, (Seq<char>, Seq<char>)>,
    key: Seq<u8>,
    ttl: nat,
    email: Seq<char>,
    password: Seq<char>,
    now: nat,
    login_attempt_id: Seq<char>,
    code: Seq<char>,
    r: Result<LoginResponse, AuthAPIError>,
) -> bool {
    if !well_formed_credentials(email, password) {
        r == Err::<LoginResponse, AuthAPIError>(AuthAPIError::InvalidCredentials) && after == before
    } else if !matches_account(accounts, email, password) {
        after == before && (r == Err::<LoginResponse, AuthAPIError>(
            AuthAPIError::IncorrectCredentials,
        ) || r == Err::<LoginResponse, AuthAPIError>(AuthAPIError::UnexpectedError))
    } else if !accounts[email].requires_2fa {
        after == before && (now + ttl > u64::MAX ==> r == Err::<LoginResponse, AuthAPIError>(
            AuthAPIError::UnexpectedError,
        )) && match r {
            Ok(LoginResponse::RegularAuth(token)) => token@ == token_of(
                key,
                email,
                now,
                now + ttl,
            ) && verdict(key, token@, now) == Ok::<Seq<char>, TokenError>(email),
            Err(AuthAPIError::UnexpectedError) => true,
            _ => false,
        }
    } else {
        match r {
            Ok(LoginResponse::TwoFactorAuth(response)) => {
                &&& response.login_attempt_id@ == login_attempt_id
                &&& response.message@ == "2FA required"@
                &&& after == before.insert(email, (login_attempt_id, code))
            },
            Err(AuthAPIError::UnexpectedError) => after == before,
            _ => false,
        }
    }
}

/// Logs in with the given fresh attempt id and code, used only where the
/// account asks for a second factor. Malformed submissions give
/// `InvalidCredentials`; an unknown address and a wrong password both give
/// `IncorrectCredentials`.
pub fn login_with<U: UserStore, C: TwoFACodeStore>(
    users: &U,
    codes: &mut C,
    issuer: &TokenIssuer,
    request: LoginRequest,
    now: u64,
    login_attempt_id: LoginAttemptId,
    code: TwoFACode,
) -> (r: Result<LoginResponse, AuthAPIError>)
    requires
        users.inv(),
        old(codes).inv(),
    ensures
        final(codes).inv(),
        users.infallible() && well_formed_credentials(request.email@, request.password@)
            && !matches_account(users.accounts(), request.email@, request.password@) ==> r
            == Err::<LoginResponse, AuthAPIError>(AuthAPIError::IncorrectCredentials),
        users.infallible() && old(codes).infallible() && well_formed_credentials(
            request.email@,
            request.password@,
        ) && matches_account(users.accounts(), request.email@, request.password@)
            && users.accounts()[request.email@].requires_2fa ==> r matches Ok(
            LoginResponse::TwoFactorAuth(_),
        ),
        users.infallible() && well_formed_credentials(request.email@, request.password@)
            && matches_account(users.accounts(), request.email@, request.password@)
            && !users.accounts()[request.email@].requires_2fa && now + issuer.ttl() <= u64::MAX
            ==> r matches Ok(LoginResponse::RegularAuth(_)),
        login_outcome(
            users.accounts(),
            old(codes).codes(),
            final(codes).codes(),
            issuer.secret(),
            issuer.ttl(),
            request.email@,
            request.password@,
            now as nat,
            login_attempt_id@,
            code@,
            r,
        ),
{
    let password = match Password::parse(request.password) {
        Ok(p) => p,
        Err(_) => return Err(AuthAPIError::InvalidCredentials),
    };
    let email = match Email::parse(request.email) {
        Ok(e) => e,
        Err(_) => return Err(AuthAPIError::InvalidCredentials),
    };
    match users.validate_user(&email, &password) {
        Ok(()) => {},
        Err(UserStoreError::UnexpectedError) => return Err(AuthAPIError::UnexpectedError),
        Err(_) => return Err(AuthAPIError::IncorrectCredentials),
    }
    let user = match users.get_user(&email) {
        Ok(u) => u,
        Err(_) => return Err(AuthAPIError::UnexpectedError),
    };
    if user.requires_2fa {
        let id_text = String::from_str(login_attempt_id.as_str());
        match codes.add_code(email, login_attempt_id, code) {
            Ok(()) => Ok(
                LoginResponse::TwoFactorAuth(
                    TwoFactorAuthResponse {
                        message: String::from_str("2FA required"),
                        login_attempt_id: id_text,
                    },
                ),
            ),
            Err(_) => Err(AuthAPIError::UnexpectedError),
        }
    } else {
        match issuer.issue(&email, now) {
            Ok(token) => Ok(LoginResponse::RegularAuth(token)),
            Err(_) => Err(AuthAPIError::UnexpectedError),
        }
    }
}

/// Logs in, drawing a fresh attempt id and code for an account that asks for
/// a second factor. The answer is that of `login_with` for some fresh id and
/// some well-formed code.
pub fn login<U: UserStore, C: TwoFACodeStore>(
    users: &U,
    codes: &mut C,
    issuer: &TokenIssuer,
    request: LoginRequest,
    now: u64,
) -> (r: Result<LoginResponse, AuthAPIError>)
    requires
        users.inv(),
        old(codes).inv(),
    ensures
        final(codes).inv(),
        users.infallible() && well_formed_credentials(request.email@, request.password@)
            && !matches_account(users.accounts(), request.email@, request.password@) ==> r
            == Err::<LoginResponse, AuthAPIError>(AuthAPIError::IncorrectCredentials),
        users.infallible() && old(codes).infallible() && well_formed_credentials(
            request.email@,
            request.password@,
        ) && matches_account(users.accounts(), request.email@, request.password@)
            && users.accounts()[request.email@].requires_2fa ==> r matches Ok(
            LoginResponse::TwoFactorAuth(_),
        ),
        users.infallible() && well_formed_credentials(request.email@, request.password@)
            && matches_account(users.accounts(), request.email@, request.password@)
            && !users.accounts()[request.email@].requires_2fa && now + issuer.ttl() <= u64::MAX
            ==> r matches Ok(LoginResponse::RegularAuth(_)),
        exists|login_attempt_id: Seq<char>, code: Seq<char>|
            is_valid_two_fa_code(code) && #[trigger] login_outcome(
                users.accounts(),
                old(codes).codes(),
                final(codes).codes(),
                issuer.secret(),
                issuer.ttl(),
                request.email@,
                request.password@,
                now as nat,
                login_attempt_id,
                code,
                r,
            ),
{
    let login_attempt_id = LoginAttemptId::generate();
    let code = TwoFACode::generate();
    let ghost id_view = login_attempt_id@;
    let ghost code_view = code@;
    let code_text = code.as_str();
    assert(is_valid_two_fa_code(code_text@));
    let r = login_with(users, codes, issuer, request, now, login_attempt_id, code);
    assert(login_outcome(
        users.accounts(),
        old(codes).codes(),
        codes.codes(),
        issuer.secret(),
        issuer.ttl(),
        request.email@,
        request.password@,
        now as nat,
        id_view,
        code_view,
        r,
    ));
    r
}

/// The pending challenge of `email` is `(login_attempt_id, code)`.
pub open spec fn matches_challenge(
    codes: Map<Seq<char>, (Seq<char>, Seq<char>)>,
    email: Seq<char>,
    login_attempt_id: Seq<char>,
    code: Seq<char>,
) -> bool {
    codes.contains_key(email) && codes[email] == (login_attempt_id, code)
}

/// Completes a second-factor login. A pending challenge is consumed by any
/// attempt that names its address, right or wrong; only an attempt that
/// matches both its id and its code gets a session token.
pub fn verify_2fa<C: TwoFACodeStore>(
    codes: &mut C,
    issuer: &TokenIssuer,
    request: Verify2FARequest,
    now: u64,
) -> (r: Result<String, AuthAPIError>)
    requires
        old(codes).inv(),
    ensures
        final(codes).inv(),
        match r {
            Ok(token) => {
                &&& is_valid_email(request.email@)
                &&& is_valid_two_fa_code(request.two_fa_code@)
                &&& matches_challenge(
                    old(codes).codes(),
                    request.email@,
                    request.login_attempt_id@,
                    request.two_fa_code@,
                )
                &&& final(codes).codes() == old(codes).codes().remove(request.email@)
                &&& token@ == token_of(
                    issuer.secret(),
                    request.email@,
                    now as nat,
                    (now + issuer.ttl()) as nat,
                )
                &&& verdict(issuer.secret(), token@, now as nat) == Ok::<Seq<char>, TokenError>(
                    request.email@,
                )
            },
            Err(AuthAPIError::InvalidCredentials) => {
                &&& !(is_valid_email(request.email@) && is_valid_two_fa_code(request.two_fa_code@))
                &&& final(codes).codes() == old(codes).codes()
            },
            Err(AuthAPIError::IncorrectCredentials) => {
                &&& is_valid_email(request.email@)
                &&& is_valid_two_fa_code(request.two_fa_code@)
                &&& !matches_challenge(
                    old(codes).codes(),
                    request.email@,
                    request.login_attempt_id@,
                    request.two_fa_code@,
                )
                &&& final(codes).codes() == old(codes).codes().remove(request.email@)
            },
            Err(AuthAPIError::UnexpectedError) => {
                &&& is_valid_email(request.email@)
                &&& is_valid_two_fa_code(request.two_fa_code@)
                &&& matches_challenge(
                    old(codes).codes(),
                    request.email@,
                    request.login_attempt_id@,
                    request.two_fa_code@,
                )
                &&& final(codes).codes() == old(codes).codes().remove(request.email@)
                &&& now + issuer.ttl() > u64::MAX
            },
            Err(_) => false,
        },
{
    let email = match Email::parse(request.email) {
        Ok(e) => e,
        Err(_) => return Err(AuthAPIError::InvalidCredentials),
    };
    let code = match TwoFACode::parse(request.two_fa_code) {
        Ok(c) => c,
        Err(_) => return Err(AuthAPIError::InvalidCredentials),
    };
    let login_attempt_id = LoginAttemptId::parse(request.login_attempt_id);
    let (stored_id, stored_code) = match codes.get_code(&email) {
        Ok(found) => found,
        Err(_) => {
            assert(old(codes).codes().remove(email@) =~= old(codes).codes());
            return Err(AuthAPIError::IncorrectCredentials);
        },
    };
    let same_id = String::from_str(stored_id.as_str()) == String::from_str(login_attempt_id.as_str());
    let same_code = String::from_str(stored_code.as_str()) == String::from_str(code.as_str());
    match codes.remove_code(&email) {
        Ok(()) => {},
        Err(_) => return Err(AuthAPIError::UnexpectedError),
    }
    if !(same_id && same_code) {
        return Err(AuthAPIError::IncorrectCredentials);
    }
    match issuer.issue(&email, now) {
        Ok(token) => Ok(token),
        Err(_) => Err(AuthAPIError::UnexpectedError),
    }
}

/// Ends a session: the token string is banned whatever it holds. A missing or
/// empty token gives `MissingToken`.
pub fn logout<B: BannedTokenStore>(banned: &mut B, token: Option<String>) -> (r: Result<
    (),
    AuthAPIError,
>)
    requires
        old(banned).inv(),
    ensures
        final(banned).inv(),
        old(banned).infallible() ==> r != Err::<(), AuthAPIError>(AuthAPIError::UnexpectedError),
        match token {
            None => r == Err::<(), AuthAPIError>(AuthAPIError::MissingToken) && final(banned).banned()
                == old(banned).banned(),
            Some(t) => if t@.len() == 0 {
                r == Err::<(), AuthAPIError>(AuthAPIError::MissingToken) && final(banned).banned()
                    == old(banned).banned()
            } else {
                match r {
                    Ok(()) => final(banned).banned() == old(banned).banned().insert(t@),
                    Err(AuthAPIError::UnexpectedError) => final(banned).banned() == old(
                        banned,
                    ).banned(),
                    Err(_) => false,
                }
            },
        },
{
    let token = match token {
        Some(t) => t,
        None => return Err(AuthAPIError::MissingToken),
    };
    if token.as_str().unicode_len() == 0 {
        return Err(AuthAPIError::MissingToken);
    }
    match banned.ban_token(token.as_str()) {
        Ok(()) => Ok(()),
        Err(BannedTokenStoreError::UnexpectedError) => Err(AuthAPIError::UnexpectedError),
    }
}

/// `token` verifies at `now` and is not banned.
pub open spec fn token_accepted(
    key: Seq<u8>,
    banned: Set<Seq<char>>,
    token: Seq<char>,
    now: nat,
) -> bool {
    verdict(key, token, now) is Ok && !banned.contains(token)
}

/// Checks a token, failing closed: it is accepted only when it verifies at
/// `now` and is not banned.
pub fn verify_token<B: BannedTokenStore>(
    banned: &B,
    issuer: &TokenIssuer,
    request: VerifyTokenRequest,
    now: u64,
) -> (r: Result<(), AuthAPIError>)
    requires
        banned.inv(),
    ensures
        banned.infallible() ==> r != Err::<(), AuthAPIError>(AuthAPIError::UnexpectedError),
        r is Ok ==> token_accepted(issuer.secret(), banned.banned(), request.token@, now as nat),
        token_accepted(issuer.secret(), banned.banned(), request.token@, now as nat) ==> r is Ok
            || r == Err::<(), AuthAPIError>(AuthAPIError::UnexpectedError),
        verdict(issuer.secret(), request.token@, now as nat) is Err ==> r == Err::<(), AuthAPIError>(
            AuthAPIError::InvalidToken,
        ),
        banned.banned().contains(request.token@) ==> r is Err,
        r is Err ==> r == Err::<(), AuthAPIError>(AuthAPIError::InvalidToken) || r == Err::<
            (),
            AuthAPIError,
        >(AuthAPIError::UnexpectedError),
{
    if issuer.verify(request.token.as_str(), now).is_err() {
        return Err(AuthAPIError::InvalidToken);
    }
    match banned.is_token_banned(request.token.as_str()) {
        Ok(true) => Err(AuthAPIError::InvalidToken),
        Ok(false) => Ok(()),
        Err(_) => Err(AuthAPIError::UnexpectedError),
    }
}

} // verus!
