use auth_service::domain::Email;
use auth_service::token::{TokenError, TokenIssuer};
use hmac::Mac;

fn hex(bytes: &[u8]) -> String {
    bytes.iter().map(|b| format!("{:02x}", b)).collect()
}

#[test]
fn token_layout_and_signature() {
    let issuer = TokenIssuer::new(b"secret".to_vec(), 600);
    let email = Email::parse("a@x.com".to_string()).unwrap();
    let token = issuer.issue(&email, 0x1234).unwrap();
    let payload = "0000000000001234000000000000148ca@x.com";
    assert!(token.starts_with(payload));
    let mut mac = hmac::Hmac::<sha2::Sha256>::new_from_slice(b"secret").unwrap();
    mac.update(payload.as_bytes());
    let tag = hex(&mac.finalize().into_bytes());
    assert_eq!(token, format!("{}.{}", payload, tag));
}

#[test]
fn token_round_trip_until_expiry() {
    let issuer = TokenIssuer::new(b"secret".to_vec(), 600);
    let email = Email::parse("a@x.com".to_string()).unwrap();
    let token = issuer.issue(&email, 1000).unwrap();
    assert_eq!(issuer.verify(&token, 1000).unwrap().as_str(), "a@x.com");
    assert_eq!(issuer.verify(&token, 1599).unwrap().as_str(), "a@x.com");
    assert_eq!(issuer.verify(&token, 1600), Err(TokenError::Expired));
}

#[test]
fn token_under_other_secret_is_refused() {
    let issuer = TokenIssuer::new(b"secret".to_vec(), 600);
    let other = TokenIssuer::new(b"another".to_vec(), 600);
    let email = Email::parse("a@x.com".to_string()).unwrap();
    let token = issuer.issue(&email, 1000).unwrap();
    assert_eq!(other.verify(&token, 1000), Err(TokenError::BadSignature));
}

#[test]
fn tampered_token_is_refused() {
    let issuer = TokenIssuer::new(b"secret".to_vec(), 600);
    let email = Email::parse("a@x.com".to_string()).unwrap();
    let token = issuer.issue(&email, 1000).unwrap();
    let tampered = token.replacen("a@x.com", "b@x.com", 1);
    assert_eq!(issuer.verify(&tampered, 1000), Err(TokenError::BadSignature));
}

#[test]
fn malformed_tokens_are_refused() {
    let issuer = TokenIssuer::new(b"secret".to_vec(), 600);
    assert_eq!(issuer.verify("", 0), Err(TokenError::Malformed));
    assert_eq!(issuer.verify("invalid_token", 0), Err(TokenError::Malformed));
    let email = Email::parse("a@x.com".to_string()).unwrap();
    let token = issuer.issue(&email, 1000).unwrap();
    let cut = token.len() - 65;
    let no_dot = format!("{}x{}", &token[..cut], &token[cut + 1..]);
    assert_eq!(issuer.verify(&no_dot, 1000), Err(TokenError::Malformed));
    let bad_stamp = format!("z{}", &token[1..]);
    assert_eq!(issuer.verify(&bad_stamp, 1000), Err(TokenError::Malformed));
}

#[test]
fn issue_fails_when_expiry_overflows() {
    let issuer = TokenIssuer::new(b"secret".to_vec(), 600);
    let email = Email::parse("a@x.com".to_string()).unwrap();
    assert_eq!(issuer.issue(&email, u64::MAX - 10), Err(TokenError::UnexpectedError));
    assert!(issuer.issue(&email, u64::MAX - 600).is_ok());
}

#[test]
fn signature_digit_changed_is_bad_signature() {
    let issuer = TokenIssuer::new(b"secret".to_vec(), 600);
    let email = Email::parse("a@x.com".to_string()).unwrap();
    let token = issuer.issue(&email, 1000).unwrap();
    let last = token.chars().last().unwrap();
    let swapped = if last == '0' { '1' } else { '0' };
    let changed = format!("{}{}", &token[..token.len() - 1], swapped);
    assert_eq!(issuer.verify(&changed, 1000), Err(TokenError::BadSignature));
    let upper = format!("{}{}", &token[..token.len() - 1], 'G');
    assert_eq!(issuer.verify(&upper, 1000), Err(TokenError::Malformed));
}
