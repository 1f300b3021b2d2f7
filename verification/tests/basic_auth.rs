use newsletter::routes::newsletters::{
    basic_auth, bytes_equal, is_visible_ascii_text, split_credentials, AuthError, HeaderField,
    Headers,
};

fn headers(fields: &[(&str, &[u8])]) -> Headers {
    Headers {
        fields: fields
            .iter()
            .map(|(name, value)| HeaderField {
                name: name.as_bytes().to_vec(),
                value: value.to_vec(),
            })
            .collect(),
    }
}

fn read(fields: &[(&str, &[u8])]) -> Result<(String, String), AuthError> {
    basic_auth(&headers(fields)).map(|c| (c.username, c.password))
}

#[test]
fn reads_user_and_password() {
    // "user:pass"
    assert_eq!(
        read(&[("authorization", b"Basic dXNlcjpwYXNz")]),
        Ok(("user".to_string(), "pass".to_string()))
    );
}

#[test]
fn password_may_hold_colons() {
    // "ursula:le:guin"
    assert_eq!(
        read(&[("authorization", b"Basic dXJzdWxhOmxlOmd1aW4=")]),
        Ok(("ursula".to_string(), "le:guin".to_string()))
    );
}

#[test]
fn empty_user_and_password_are_read() {
    // ":"
    assert_eq!(read(&[("authorization", b"Basic Og==")]), Ok((String::new(), String::new())));
}

#[test]
fn non_ascii_credentials_are_read() {
    // "günter:päss" in UTF-8
    assert_eq!(
        read(&[("authorization", b"Basic Z8O8bnRlcjpww6Rzcw==")]),
        Ok(("günter".to_string(), "päss".to_string()))
    );
}

#[test]
fn first_authorization_field_is_read() {
    assert_eq!(
        read(&[
            ("content-type", b"text/plain"),
            ("authorization", b"Basic dXNlcjpwYXNz"),
            ("authorization", b"Bearer token"),
        ]),
        Ok(("user".to_string(), "pass".to_string()))
    );
    assert_eq!(
        read(&[("authorization", b"Bearer token"), ("authorization", b"Basic dXNlcjpwYXNz")]),
        Err(AuthError::NotBasicScheme)
    );
}

#[test]
fn missing_header_is_refused() {
    assert_eq!(read(&[]), Err(AuthError::MissingHeader));
    assert_eq!(read(&[("x-authorization", b"Basic dXNlcjpwYXNz")]), Err(AuthError::MissingHeader));
}

#[test]
fn invisible_bytes_are_refused() {
    assert_eq!(read(&[("authorization", b"Basic dXNl\ncjpwYXNz")]), Err(AuthError::NotVisibleAscii));
    assert_eq!(read(&[("authorization", &[66, 97, 115, 105, 99, 32, 200])]), Err(AuthError::NotVisibleAscii));
}

#[test]
fn tabs_are_visible() {
    assert!(is_visible_ascii_text(b"a\tb ~"));
    assert!(!is_visible_ascii_text(b"a\x7fb"));
    // a tab is text, but not base64
    assert_eq!(read(&[("authorization", b"Basic \tdXNlcjpwYXNz")]), Err(AuthError::NotBase64));
}

#[test]
fn other_schemes_are_refused() {
    assert_eq!(read(&[("authorization", b"Bearer dXNlcjpwYXNz")]), Err(AuthError::NotBasicScheme));
    assert_eq!(read(&[("authorization", b"basic dXNlcjpwYXNz")]), Err(AuthError::NotBasicScheme));
    assert_eq!(read(&[("authorization", b"Basic")]), Err(AuthError::NotBasicScheme));
}

#[test]
fn bad_base64_is_refused() {
    assert_eq!(read(&[("authorization", b"Basic dXNlcjpwYXNz!")]), Err(AuthError::NotBase64));
    assert_eq!(read(&[("authorization", b"Basic dXNlcjpwYXN")]), Err(AuthError::NotBase64));
}

#[test]
fn invalid_utf8_is_refused() {
    // bytes ff fe fd
    assert_eq!(read(&[("authorization", b"Basic //79")]), Err(AuthError::NotUtf8));
}

#[test]
fn credentials_without_colon_are_refused() {
    // "user"
    assert_eq!(read(&[("authorization", b"Basic dXNlcg==")]), Err(AuthError::MissingPassword));
    // ""
    assert_eq!(read(&[("authorization", b"Basic ")]), Err(AuthError::MissingPassword));
}

#[test]
fn split_at_first_colon() {
    let c = split_credentials(b"a:b:c".to_vec()).ok().unwrap();
    assert_eq!((c.username.as_str(), c.password.as_str()), ("a", "b:c"));
    assert_eq!(split_credentials(vec![0xc3, 0x28, b':']).err(), Some(AuthError::NotUtf8));
    assert_eq!(split_credentials(b"abc".to_vec()).err(), Some(AuthError::MissingPassword));
}

#[test]
fn byte_strings_compare() {
    assert!(bytes_equal(b"abc", b"abc"));
    assert!(!bytes_equal(b"abc", b"abd"));
    assert!(!bytes_equal(b"abc", b"ab"));
    assert!(bytes_equal(b"", b""));
}
