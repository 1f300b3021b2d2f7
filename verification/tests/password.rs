use argon2::password_hash::{PasswordHasher, SaltString};
use argon2::Argon2;
use newsletter::password::StoredPasswordHash;
use newsletter::routes::newsletters::{verify_password_hash, CredentialError};

fn phc_of(password: &str) -> String {
    let salt = SaltString::encode_b64(b"a salt of 16 b!!").unwrap();
    Argon2::default().hash_password(password.as_bytes(), &salt).unwrap().to_string()
}

#[test]
fn matching_password_is_accepted() {
    let phc = phc_of("everythinghastostartsomewhere");
    assert_eq!(verify_password_hash(&phc, "everythinghastostartsomewhere"), Ok(()));
}

#[test]
fn other_password_is_rejected() {
    let phc = phc_of("everythinghastostartsomewhere");
    assert_eq!(verify_password_hash(&phc, "everythinghastostart"), Err(CredentialError::InvalidPassword));
    assert_eq!(verify_password_hash(&phc, ""), Err(CredentialError::InvalidPassword));
}

#[test]
fn malformed_hash_is_rejected() {
    assert_eq!(verify_password_hash("", "x"), Err(CredentialError::MalformedHash));
    assert_eq!(verify_password_hash("not a phc string", "x"), Err(CredentialError::MalformedHash));
    assert_eq!(verify_password_hash("$", "x"), Err(CredentialError::MalformedHash));
}

#[test]
fn unusable_parameters_reject_the_password() {
    // a well-formed PHC string whose parameters Argon2 cannot use
    assert_eq!(verify_password_hash("$argon2id$v=19$m=abc", "x"), Err(CredentialError::InvalidPassword));
}

#[test]
fn stored_hash_parses_only_phc_strings() {
    let phc = phc_of("pw");
    assert!(StoredPasswordHash::parse(&phc).is_some());
    assert!(StoredPasswordHash::parse("plain text").is_none());
}
