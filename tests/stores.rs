use auth_service::data_stores::{BannedTokenStore, TwoFACodeStore};
use auth_service::domain::{Email, LoginAttemptId, TwoFACode, User, UserStoreError};
use auth_service::services::{HashmapTwoFACodeStore, HashmapUserStore, HashsetBannedTokenStore};

#[test]
fn test_add_and_get_code() {
    let mut store = HashmapTwoFACodeStore::default();
    let email = Email::parse("test@test.com".to_string()).unwrap();
    let login_attempt_id = LoginAttemptId::generate();
    let code = TwoFACode::parse("123456".to_string()).unwrap();
    store
        .add_code(email.clone(), login_attempt_id.clone(), code.clone())
        .unwrap();
    let (retrieved_id, retrieved_code) = store.get_code(&email).unwrap();
    assert_eq!(retrieved_id, login_attempt_id);
    assert_eq!(retrieved_code, code);
}

#[test]
fn test_add_user() {
    let mut store = HashmapUserStore::default();
    let user = User::new("test@test.com".to_owned(), "password".to_owned(), false);
    assert_eq!(store.add_user(user), Ok(()));
}

#[test]
fn test_get_user() {
    let mut store = HashmapUserStore::default();
    let user = User::new("test@test.com".to_owned(), "password".to_owned(), false);
    store.add_user(user).unwrap();
    assert_eq!(store.get_user("test@test.com").is_ok(), true);
}

#[test]
fn test_validate_user() {
    let mut store = HashmapUserStore::default();
    let user = User::new("test@test.com".to_owned(), "password".to_owned(), false);
    store.add_user(user).unwrap();
    assert_eq!(store.validate_user("test@test.com", "password"), Ok(()));
}

#[test]
fn test_ban_token() {
    let mut store = HashsetBannedTokenStore::default();
    assert_eq!(store.is_token_banned("token1").unwrap(), false);
    store.ban_token("token1").unwrap();
    assert_eq!(store.is_token_banned("token1").unwrap(), true);
}

#[test]
fn test_is_token_banned() {
    let mut store = HashsetBannedTokenStore::default();
    store.ban_token("token2").unwrap();
    assert_eq!(store.is_token_banned("token2").unwrap(), true);
    assert_eq!(store.is_token_banned("token3").unwrap(), false);
}

#[test]
fn banning_twice_is_no_error() {
    let mut store = HashsetBannedTokenStore::default();
    assert_eq!(store.ban_token("t"), Ok(()));
    assert_eq!(store.ban_token("t"), Ok(()));
    assert_eq!(store.is_token_banned("t"), Ok(true));
}

#[test]
fn adding_an_account_twice_is_refused_and_keeps_the_first() {
    let mut store = HashmapUserStore::default();
    store
        .add_user(User::new("a@x.com".to_owned(), "password123".to_owned(), false))
        .unwrap();
    let again = User::new("a@x.com".to_owned(), "otherpassword".to_owned(), true);
    assert_eq!(store.add_user(again), Err(UserStoreError::UserAlreadyExists));
    let kept = store.get_user("a@x.com").unwrap();
    assert_eq!(kept.password, "password123");
    assert!(!kept.requires_2fa);
}

#[test]
fn get_and_validate_report_missing_and_wrong() {
    let mut store = HashmapUserStore::default();
    store
        .add_user(User::new("a@x.com".to_owned(), "password123".to_owned(), false))
        .unwrap();
    assert!(matches!(store.get_user("b@x.com"), Err(UserStoreError::UserNotFound)));
    assert_eq!(
        store.validate_user("b@x.com", "password123"),
        Err(UserStoreError::UserNotFound)
    );
    // one character changed
    assert_eq!(
        store.validate_user("a@x.com", "password124"),
        Err(UserStoreError::InvalidCredentials)
    );
}

#[test]
fn challenge_is_replaced_and_removed() {
    let mut store = HashmapTwoFACodeStore::default();
    let email = Email::parse("a@x.com".to_string()).unwrap();
    let first = LoginAttemptId::parse("first".to_string());
    let second = LoginAttemptId::parse("second".to_string());
    let code = TwoFACode::parse("111111".to_string()).unwrap();
    store.add_code(email.clone(), first, code.clone()).unwrap();
    store.add_code(email.clone(), second.clone(), code.clone()).unwrap();
    let (id, _) = store.get_code(&email).unwrap();
    assert_eq!(id, second);
    assert_eq!(store.remove_code(&email), Ok(()));
    assert!(store.get_code(&email).is_err());
    assert!(store.remove_code(&email).is_err());
}
