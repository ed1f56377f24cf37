//! Validated value types of the authentication domain.

use rand::Rng;
use vstd::prelude::*;
use crate::token::{hex_digit, hex_digits};

verus! {

/// Text equality of an owned string and a borrowed one.
pub(crate) fn same_text(a: &String, b: &str) -> (r: bool)
    ensures
        r == (a@ == b@),
{
    let b_owned = String::from_str(b);
    *a == b_owned
}

/// What `validator::validate_email` decides for a string.
pub uninterp spec fn is_valid_email(s: Seq<char>) -> bool;

/// Relies on `validator::validate_email` (0.16): the verdict depends on the text
/// alone, and the function returns `false` for an empty string or one without
/// an `@` before making any other test.
#[verifier::external_body]
fn check_email(s: &str) -> (r: bool)
    ensures
        r == is_valid_email(s@),
        r ==> s@.len() > 0 && s@.contains('@'),
{
    validator::validate_email(s)
}

/// Least number of characters in a password.
pub const MIN_PASSWORD_LEN: usize = 8;

/// A password is acceptable when it has at least `MIN_PASSWORD_LEN` characters.
pub open spec fn is_valid_password(s: Seq<char>) -> bool {
    s.len() >= MIN_PASSWORD_LEN
}

/// An email address that passed validation.
#[derive(Debug, PartialEq, Eq, Hash)]
pub struct Email(String);

impl View for Email {
    type V = Seq<char>;

    closed spec fn view(&self) -> Seq<char> {
        self.0@
    }
}

impl Clone for Email {
    fn clone(&self) -> (r: Self)
        ensures
            r@ == self@,
    {
        proof {
            use_type_invariant(self);
        }
        Email(self.0.clone())
    }
}

impl Email {
    #[verifier::type_invariant]
    closed spec fn inv(&self) -> bool {
        is_valid_email(self.0@)
    }

    /// Accepts `s` exactly when it is a valid address.
    pub fn parse(s: String) -> (r: Result<Email, String>)
        ensures
            is_valid_email(s@) <==> r is Ok,
            r matches Ok(e) ==> e@ == s@,
            r matches Err(m) ==> m@ == s@ + " is not a valid email"@,
            s@.len() == 0 || !s@.contains('@') ==> r is Err,
    {
        if check_email(s.as_str()) {
            Ok(Email(s))
        } else {
            Err(s.concat(" is not a valid email"))
        }
    }

    /// The address; it is always a valid one.
    pub fn as_str(&self) -> (r: &str)
        ensures
            r@ == self@,
            is_valid_email(r@),
    {
        proof {
            use_type_invariant(self);
        }
        self.0.as_str()
    }
}

/// A password of at least `MIN_PASSWORD_LEN` characters.
#[derive(Debug, PartialEq, Eq, Hash)]
pub struct Password(String);

impl View for Password {
    type V = Seq<char>;

    closed spec fn view(&self) -> Seq<char> {
        self.0@
    }
}

/// Whether `s` is long enough to be a password.
pub fn validate_password(s: &str) -> (r: bool)
    ensures
        r == is_valid_password(s@),
{
    s.unicode_len() >= MIN_PASSWORD_LEN
}

impl Clone for Password {
    fn clone(&self) -> (r: Self)
        ensures
            r@ == self@,
    {
        proof {
            use_type_invariant(self);
        }
        Password(self.0.clone())
    }
}

impl Password {
    #[verifier::type_invariant]
    closed spec fn inv(&self) -> bool {
        is_valid_password(self.0@)
    }

    /// Accepts `s` exactly when it has at least `MIN_PASSWORD_LEN` characters.
    pub fn parse(s: String) -> (r: Result<Password, String>)
        ensures
            is_valid_password(s@) <==> r is Ok,
            r matches Ok(p) ==> p@ == s@,
            r matches Err(m) ==> m@ == s@ + " is not a valid password"@,
    {
        if validate_password(s.as_str()) {
            Ok(Password(s))
        } else {
            Err(s.concat(" is not a valid password"))
        }
    }

    /// The password text; it is always long enough.
    pub fn as_str(&self) -> (r: &str)
        ensures
            r@ == self@,
            is_valid_password(r@),
    {
        proof {
            use_type_invariant(self);
        }
        self.0.as_str()
    }
}

/// An account record: one per email address.
pub struct User {
    pub email: String,
    pub password: String,
    pub requires_2fa: bool,
}

impl User {
    pub fn new(email: String, password: String, requires_2fa: bool) -> (r: User)
        ensures
            r.email == email,
            r.password == password,
            r.requires_2fa == requires_2fa,
    {
        User { email, password, requires_2fa }
    }
}

impl Clone for User {
    fn clone(&self) -> (r: Self)
        ensures
            r == *self,
    {
        User::new(self.email.clone(), self.password.clone(), self.requires_2fa)
    }
}

/// Failures of a `UserStore`.
#[derive(Debug, Clone, Copy, PartialEq, Eq, Structural)]
pub enum UserStoreError {
    UserAlreadyExists,
    UserNotFound,
    InvalidCredentials,
    UnexpectedError,
}

/// Failures of a `BannedTokenStore`.
#[derive(Debug, Clone, Copy, PartialEq, Eq, Structural)]
pub enum BannedTokenStoreError {
    UnexpectedError,
}

/// Failures of a `TwoFACodeStore`.
#[derive(Debug, Clone, Copy, PartialEq, Eq, Structural)]
pub enum TwoFACodeStoreError {
    LoginAttemptIdNotFound,
    UnexpectedError,
}

/// The identifier of one login attempt that waits for a second factor.
#[derive(Debug, PartialEq, Eq, Hash)]
pub struct LoginAttemptId(String);

impl View for LoginAttemptId {
    type V = Seq<char>;

    closed spec fn view(&self) -> Seq<char> {
        self.0@
    }
}

impl Clone for LoginAttemptId {
    fn clone(&self) -> (r: Self)
        ensures
            r@ == self@,
    {
        LoginAttemptId(self.0.clone())
    }
}

/// Relies on `uuid::Uuid::new_v4` and its `Display`, which writes the
/// lowercase hyphenated form of 36 ASCII characters. Nothing more is known of
/// the value, which is random.
#[verifier::external_body]
fn random_uuid() -> (r: String)
    ensures
        r@.len() == 36,
{
    uuid::Uuid::new_v4().to_string()
}

/// Relies on `rand::Rng::gen_range` over `rand::thread_rng()`: a random value
/// of `0..bound`; it panics on an empty range, which `requires` leaves out.
#[verifier::external_body]
fn random_below(bound: u32) -> (r: u32)
    requires
        bound > 0,
    ensures
        r < bound,
{
    rand::thread_rng().gen_range(0..bound)
}

impl LoginAttemptId {
    /// A fresh random identifier.
    pub fn generate() -> (r: LoginAttemptId)
        ensures
            r@.len() == 36,
    {
        LoginAttemptId(random_uuid())
    }

    /// Wraps an identifier as handed back by a client.
    pub fn parse(s: String) -> (r: LoginAttemptId)
        ensures
            r@ == s@,
    {
        LoginAttemptId(s)
    }

    pub fn as_str(&self) -> (r: &str)
        ensures
            r@ == self@,
    {
        self.0.as_str()
    }
}

/// Number of digits in a second-factor code.
pub const TWO_FA_CODE_LEN: usize = 6;

pub open spec fn is_digit(c: char) -> bool {
    '0' <= c && c <= '9'
}

/// A second-factor code is exactly `TWO_FA_CODE_LEN` decimal digits.
pub open spec fn is_valid_two_fa_code(s: Seq<char>) -> bool {
    s.len() == TWO_FA_CODE_LEN && forall|i: int| 0 <= i < s.len() ==> is_digit(#[trigger] s[i])
}

/// The last `k` decimal digits of `n`, most significant first.
pub open spec fn decimal_of(n: nat, k: nat) -> Seq<char>
    decreases k,
{
    if k == 0 {
        Seq::empty()
    } else {
        decimal_of(n / 10, (k - 1) as nat).push(hex_digits()[(n % 10) as int])
    }
}

fn decimal_digits(n: u32, k: usize) -> (r: String)
    ensures
        r@ == decimal_of(n as nat, k as nat),
        r@.len() == k,
        forall|i: int| 0 <= i < k ==> is_digit(#[trigger] r@[i]),
    decreases k,
{
    if k == 0 {
        String::new()
    } else {
        let mut s = decimal_digits(n / 10, k - 1);
        let d = (n % 10) as u8;
        s.append(hex_digit(d));
        assert(s@ =~= decimal_of(n as nat, k as nat));
        assert(is_digit(hex_digits()[d as int]));
        s
    }
}

/// A second-factor code of `TWO_FA_CODE_LEN` digits.
#[derive(Debug, PartialEq, Eq, Hash)]
pub struct TwoFACode(String);

impl View for TwoFACode {
    type V = Seq<char>;

    closed spec fn view(&self) -> Seq<char> {
        self.0@
    }
}

impl Clone for TwoFACode {
    fn clone(&self) -> (r: Self)
        ensures
            r@ == self@,
    {
        proof {
            use_type_invariant(self);
        }
        TwoFACode(self.0.clone())
    }
}

impl TwoFACode {
    #[verifier::type_invariant]
    closed spec fn inv(&self) -> bool {
        is_valid_two_fa_code(self.0@)
    }

    /// The code that writes `n` with `TWO_FA_CODE_LEN` digits, zeros in front.
    pub fn from_number(n: u32) -> (r: TwoFACode)
        requires
            n < 1_000_000,
        ensures
            r@ == decimal_of(n as nat, TWO_FA_CODE_LEN as nat),
            is_valid_two_fa_code(r@),
    {
        TwoFACode(decimal_digits(n, TWO_FA_CODE_LEN))
    }

    /// A fresh random code.
    pub fn generate() -> (r: TwoFACode)
        ensures
            is_valid_two_fa_code(r@),
    {
        TwoFACode::from_number(random_below(1_000_000))
    }

    /// Accepts `s` exactly when it is `TWO_FA_CODE_LEN` decimal digits.
    pub fn parse(s: String) -> (r: Result<TwoFACode, String>)
        ensures
            is_valid_two_fa_code(s@) <==> r is Ok,
            r matches Ok(c) ==> c@ == s@,
            r matches Err(m) ==> m@ == s@ + " is not a valid code"@,
    {
        let n = s.as_str().unicode_len();
        let mut ok = n == TWO_FA_CODE_LEN;
        let mut i: usize = 0;
        while ok && i < n
            invariant
                n == s@.len(),
                i <= n,
                ok ==> n == TWO_FA_CODE_LEN,
                ok ==> forall|j: int| 0 <= j < i ==> is_digit(#[trigger] s@[j]),
                !ok ==> !is_valid_two_fa_code(s@),
            decreases n - i,
        {
            let c = s.as_str().get_char(i);
            if !('0' <= c && c <= '9') {
                ok = false;
            }
            i = i + 1;
        }
        if ok {
            Ok(TwoFACode(s))
        } else {
            Err(s.concat(" is not a valid code"))
        }
    }

    /// The code text; it is always `TWO_FA_CODE_LEN` digits.
    pub fn as_str(&self) -> (r: &str)
        ensures
            r@ == self@,
            is_valid_two_fa_code(r@),
    {
        proof {
            use_type_invariant(self);
        }
        self.0.as_str()
    }
}

/// Errors of the authentication protocol as its callers see them.
#[derive(Debug, Clone, Copy, PartialEq, Eq, Structural)]
pub enum AuthAPIError {
    UserAlreadyExists,
    InvalidCredentials,
    IncorrectCredentials,
    MissingToken,
    InvalidToken,
    UnexpectedError,
}

impl AuthAPIError {
    /// The message that goes with the error.
    pub fn message(&self) -> (r: &'static str)
        ensures
            r@ == match self {
                AuthAPIError::UserAlreadyExists => "User already exists"@,
                AuthAPIError::InvalidCredentials => "Invalid credentials"@,
                AuthAPIError::IncorrectCredentials => "Invalid credentials"@,
                AuthAPIError::MissingToken => "Missing token"@,
                AuthAPIError::InvalidToken => "Invalid token"@,
                AuthAPIError::UnexpectedError => "Unexpected error"@,
            },
    {
        match self {
            AuthAPIError::UserAlreadyExists => "User already exists",
            AuthAPIError::InvalidCredentials => "Invalid credentials",
            AuthAPIError::IncorrectCredentials => "Invalid credentials",
            AuthAPIError::MissingToken => "Missing token",
            AuthAPIError::InvalidToken => "Invalid token",
            AuthAPIError::UnexpectedError => "Unexpected error",
        }
    }
}

} // verus!
