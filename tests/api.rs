use auth_service::data_stores::{BannedTokenStore, TwoFACodeStore};
use auth_service::domain::{AuthAPIError, Email};
use auth_service::routes::{
    login, login_with, logout, signup, verify_2fa, verify_token, LoginRequest, LoginResponse,
    SignupRequest, Verify2FARequest, VerifyTokenRequest,
};
use auth_service::services::{HashmapTwoFACodeStore, HashmapUserStore, HashsetBannedTokenStore};
use auth_service::token::{TokenIssuer, TOKEN_TTL_SECONDS};

const NOW: u64 = 1_700_000_000;

struct TestApp {
    users: HashmapUserStore,
    banned: HashsetBannedTokenStore,
    codes: HashmapTwoFACodeStore,
    issuer: TokenIssuer,
}

impl TestApp {
    fn new() -> TestApp {
        TestApp {
            users: HashmapUserStore::default(),
            banned: HashsetBannedTokenStore::default(),
            codes: HashmapTwoFACodeStore::default(),
            issuer: TokenIssuer::new(b"test secret".to_vec(), TOKEN_TTL_SECONDS),
        }
    }

    fn post_signup(&mut self, email: &str, password: &str, requires_2fa: bool) -> Result<String, AuthAPIError> {
        let request = SignupRequest {
            email: email.to_string(),
            password: password.to_string(),
            requires_2fa,
        };
        signup(&mut self.users, request).map(|r| r.message)
    }

    fn post_login(&mut self, email: &str, password: &str) -> Result<LoginResponse, AuthAPIError> {
        let request = LoginRequest { email: email.to_string(), password: password.to_string() };
        login(&self.users, &mut self.codes, &self.issuer, request, NOW)
    }

    fn post_verify_token(&self, token: &str) -> Result<(), AuthAPIError> {
        let request = VerifyTokenRequest { token: token.to_string() };
        verify_token(&self.banned, &self.issuer, request, NOW)
    }
}

fn token_of(response: Result<LoginResponse, AuthAPIError>) -> String {
    match response {
        Ok(LoginResponse::RegularAuth(token)) => token,
        _ => panic!("No auth cookie found"),
    }
}

#[test]
fn login_should_return_400_if_invalid_input() {
    let mut app = TestApp::new();
    let random_email = "someone@example.com";
    let test_cases = [("", "password123"), (random_email, "")];
    for (email, password) in test_cases.iter() {
        let response = app.post_login(email, password);
        assert!(
            matches!(response, Err(AuthAPIError::InvalidCredentials)),
            "Failed for input: {:?}",
            (email, password)
        );
        assert_eq!(AuthAPIError::InvalidCredentials.message(), "Invalid credentials");
    }
}

#[test]
fn should_return_401_if_incorrect_credentials() {
    let mut app = TestApp::new();
    let random_email = "someone@example.com";
    let correct_password = "password123";
    let wrong_password = "wrongpassword";
    assert!(app.post_signup(random_email, correct_password, true).is_ok(), "Failed to create test account");
    let login_response = app.post_login(random_email, wrong_password);
    assert!(
        matches!(login_response, Err(AuthAPIError::IncorrectCredentials)),
        "Expected 401 for incorrect password"
    );
    assert_eq!(AuthAPIError::IncorrectCredentials.message(), "Invalid credentials");
}

#[test]
fn should_return_200_if_valid_credentials_and_2fa_disabled() {
    let mut app = TestApp::new();
    let random_email = "someone@example.com";
    assert!(app.post_signup(random_email, "password123", false).is_ok());
    let response = app.post_login(random_email, "password123");
    let auth_cookie = token_of(response);
    assert!(!auth_cookie.is_empty());
}

#[test]
fn should_return_206_if_valid_credentials_and_2fa_enabled() {
    let mut app = TestApp::new();
    let random_email = "someone@example.com";
    assert!(app.post_signup(random_email, "password123", true).is_ok());
    let response = app.post_login(random_email, "password123");
    let json_body = match response {
        Ok(LoginResponse::TwoFactorAuth(body)) => body,
        _ => panic!("Could not deserialize response body to TwoFactorAuthResponse"),
    };
    assert_eq!(json_body.message, "2FA required".to_owned());
    let code_tuple = app
        .codes
        .get_code(&Email::parse(random_email.to_string()).unwrap())
        .expect("Failed to get 2FA code");
    assert_eq!(code_tuple.0.as_str(), json_body.login_attempt_id);
}

#[test]
fn should_return_400_if_jwt_cookie_missing() {
    let mut app = TestApp::new();
    let response = logout(&mut app.banned, None);
    assert_eq!(response, Err(AuthAPIError::MissingToken));
    assert_eq!(AuthAPIError::MissingToken.message(), "Missing token");
}

#[test]
fn should_return_200_if_valid_jwt_cookie() {
    let mut app = TestApp::new();
    let random_email = "someone@example.com";
    assert!(app.post_signup(random_email, "password123", false).is_ok());
    let token = token_of(app.post_login(random_email, "password123"));
    assert!(!token.is_empty());
    assert_eq!(logout(&mut app.banned, Some(token.clone())), Ok(()));
    let contains_token = app
        .banned
        .is_token_banned(&token)
        .expect("Failed to check if token is banned");
    assert!(contains_token);
}

#[test]
fn should_return_400_if_logout_called_twice_in_a_row() {
    let mut app = TestApp::new();
    let email = "someone@example.com";
    let password = "BAD_Pa$$w0rd!";
    app.post_signup(email, password, false).unwrap();
    let token = token_of(app.post_login(email, password));
    assert_eq!(logout(&mut app.banned, Some(token)), Ok(()));
    // the session cookie was cleared by the first logout
    let response = logout(&mut app.banned, None);
    assert_eq!(response, Err(AuthAPIError::MissingToken));
    assert_eq!(AuthAPIError::MissingToken.message(), "Missing token");
}

#[test]
fn should_return_201_if_valid_input() {
    let mut app = TestApp::new();
    let response = app.post_signup("someone@example.com", "password123", true);
    assert_eq!(response, Ok("User created successfully!".to_owned()));
}

#[test]
fn signup_should_return_400_if_invalid_input() {
    let mut app = TestApp::new();
    let test_cases = [
        ("", "password123"),
        ("testatexample.com", "password123"),
        ("test@example.com", "a"),
    ];
    for (email, password) in test_cases.iter() {
        let response = app.post_signup(email, password, true);
        assert_eq!(
            response,
            Err(AuthAPIError::InvalidCredentials),
            "Failed for input: {:?}",
            (email, password)
        );
        assert_eq!(AuthAPIError::InvalidCredentials.message(), "Invalid credentials".to_owned());
    }
}

#[test]
fn should_return_409_if_email_already_exists() {
    let mut app = TestApp::new();
    let response1 = app.post_signup("someone@example.com", "password123", true);
    assert!(response1.is_ok());
    let response2 = app.post_signup("someone@example.com", "password123", true);
    assert_eq!(response2, Err(AuthAPIError::UserAlreadyExists));
    assert_eq!(AuthAPIError::UserAlreadyExists.message(), "User already exists".to_owned());
}

#[test]
fn should_return_200_valid_token() {
    let mut app = TestApp::new();
    let email = "someone@example.com";
    let password = "BAD_Pa$$w0rd!";
    assert!(app.post_signup(email, password, false).is_ok());
    let token = token_of(app.post_login(email, password));
    assert_eq!(app.post_verify_token(&token), Ok(()));
}

#[test]
fn verify_token_should_return_401_if_invalid_token() {
    let app = TestApp::new();
    let response = app.post_verify_token("invalid_token");
    assert_eq!(response, Err(AuthAPIError::InvalidToken));
    assert_eq!(AuthAPIError::InvalidToken.message(), "Invalid token".to_owned());
}

#[test]
fn scenario_a_signup_login_verify() {
    let mut app = TestApp::new();
    assert!(app.post_signup("a@x.com", "password123", false).is_ok());
    let token = token_of(app.post_login("a@x.com", "password123"));
    assert_eq!(app.post_verify_token(&token), Ok(()));
    let subject = app.issuer.verify(&token, NOW).unwrap();
    assert_eq!(subject.as_str(), "a@x.com");
}

#[test]
fn scenario_b_second_factor() {
    let mut app = TestApp::new();
    assert!(app.post_signup("b@x.com", "password123", true).is_ok());
    let response = app.post_login("b@x.com", "password123");
    let attempt = match response {
        Ok(LoginResponse::TwoFactorAuth(body)) => body.login_attempt_id,
        _ => panic!("expected a challenge and no token"),
    };
    let email = Email::parse("b@x.com".to_string()).unwrap();
    let (_, code) = app.codes.get_code(&email).unwrap();
    // a wrong code fails and issues nothing
    let wrong = if code.as_str() == "000000" { "000001" } else { "000000" };
    let bad = verify_2fa(
        &mut app.codes,
        &app.issuer,
        Verify2FARequest {
            email: "b@x.com".to_string(),
            login_attempt_id: attempt.clone(),
            two_fa_code: wrong.to_string(),
        },
        NOW,
    );
    assert_eq!(bad, Err(AuthAPIError::IncorrectCredentials));
    // the failed attempt consumed the challenge: log in again
    let attempt = match app.post_login("b@x.com", "password123") {
        Ok(LoginResponse::TwoFactorAuth(body)) => body.login_attempt_id,
        _ => panic!("expected a challenge"),
    };
    let (_, code) = app.codes.get_code(&email).unwrap();
    let good = verify_2fa(
        &mut app.codes,
        &app.issuer,
        Verify2FARequest {
            email: "b@x.com".to_string(),
            login_attempt_id: attempt,
            two_fa_code: code.as_str().to_string(),
        },
        NOW,
    );
    let token = good.unwrap();
    assert_eq!(app.post_verify_token(&token), Ok(()));
    assert!(app.codes.get_code(&email).is_err());
}

#[test]
fn scenario_c_unknown_email_is_incorrect_not_invalid() {
    let mut app = TestApp::new();
    let response = app.post_login("nobody@x.com", "password123");
    assert!(matches!(response, Err(AuthAPIError::IncorrectCredentials)));
}

#[test]
fn scenario_d_logout_revokes_token() {
    let mut app = TestApp::new();
    app.post_signup("d@x.com", "password123", false).unwrap();
    let token = token_of(app.post_login("d@x.com", "password123"));
    assert_eq!(logout(&mut app.banned, Some(token.clone())), Ok(()));
    assert_eq!(app.post_verify_token(&token), Err(AuthAPIError::InvalidToken));
    // the signature itself is still good
    assert!(app.issuer.verify(&token, NOW).is_ok());
}

#[test]
fn logout_bans_any_token_string() {
    let mut app = TestApp::new();
    assert_eq!(logout(&mut app.banned, Some("invalid".to_string())), Ok(()));
    assert_eq!(app.banned.is_token_banned("invalid"), Ok(true));
    assert_eq!(logout(&mut app.banned, Some(String::new())), Err(AuthAPIError::MissingToken));
}

#[test]
fn superseded_challenge_no_longer_matches() {
    let mut app = TestApp::new();
    app.post_signup("e@x.com", "password123", true).unwrap();
    let first_code = auth_service::domain::TwoFACode::parse("111111".to_string()).unwrap();
    let second_code = auth_service::domain::TwoFACode::parse("222222".to_string()).unwrap();
    let first_id = auth_service::domain::LoginAttemptId::parse("first".to_string());
    let second_id = auth_service::domain::LoginAttemptId::parse("second".to_string());
    let request = || LoginRequest { email: "e@x.com".to_string(), password: "password123".to_string() };
    login_with(&app.users, &mut app.codes, &app.issuer, request(), NOW, first_id, first_code).unwrap();
    login_with(&app.users, &mut app.codes, &app.issuer, request(), NOW, second_id, second_code).unwrap();
    let old = verify_2fa(
        &mut app.codes,
        &app.issuer,
        Verify2FARequest {
            email: "e@x.com".to_string(),
            login_attempt_id: "first".to_string(),
            two_fa_code: "111111".to_string(),
        },
        NOW,
    );
    assert_eq!(old, Err(AuthAPIError::IncorrectCredentials));
}

#[test]
fn second_factor_with_malformed_code_is_invalid() {
    let mut app = TestApp::new();
    let r = verify_2fa(
        &mut app.codes,
        &app.issuer,
        Verify2FARequest {
            email: "e@x.com".to_string(),
            login_attempt_id: "id".to_string(),
            two_fa_code: "12".to_string(),
        },
        NOW,
    );
    assert_eq!(r, Err(AuthAPIError::InvalidCredentials));
    let r = verify_2fa(
        &mut app.codes,
        &app.issuer,
        Verify2FARequest {
            email: "e@x.com".to_string(),
            login_attempt_id: "id".to_string(),
            two_fa_code: "123456".to_string(),
        },
        NOW,
    );
    assert_eq!(r, Err(AuthAPIError::IncorrectCredentials));
}

#[test]
fn login_reports_unexpected_error_when_expiry_overflows() {
    let mut app = TestApp::new();
    app.post_signup("f@x.com", "password123", false).unwrap();
    let request = LoginRequest { email: "f@x.com".to_string(), password: "password123".to_string() };
    let r = login(&app.users, &mut app.codes, &app.issuer, request, u64::MAX - 1);
    assert!(matches!(r, Err(AuthAPIError::UnexpectedError)));
    assert_eq!(AuthAPIError::UnexpectedError.message(), "Unexpected error");
}

#[test]
fn login_answers_do_not_depend_on_the_clock_where_no_token_is_issued() {
    let mut app = TestApp::new();
    app.post_signup("g@x.com", "password123", false).unwrap();
    app.post_signup("h@x.com", "password123", true).unwrap();
    let late = u64::MAX - 1;
    let request = |email: &str, password: &str| LoginRequest {
        email: email.to_string(),
        password: password.to_string(),
    };
    let unknown = login(&app.users, &mut app.codes, &app.issuer, request("nobody@x.com", "password123"), late);
    assert!(matches!(unknown, Err(AuthAPIError::IncorrectCredentials)));
    let wrong = login(&app.users, &mut app.codes, &app.issuer, request("g@x.com", "wrongpassword"), late);
    assert!(matches!(wrong, Err(AuthAPIError::IncorrectCredentials)));
    let challenge = login(&app.users, &mut app.codes, &app.issuer, request("h@x.com", "password123"), late);
    assert!(matches!(challenge, Ok(LoginResponse::TwoFactorAuth(_))));
}
