use argon2::password_hash::{PasswordHasher, SaltString};
use argon2::Argon2;
use newsletter::routes::newsletters::{
    confirmed_subscribers, publish_newsletter_start, publish_newsletter_step, validate_credentials,
    BodyData, Content, CredentialError, HeaderField, Headers, PublishAction, PublishEvent, PublishState,
    StoredCredentials,
};

fn phc_of(password: &str) -> String {
    let salt = SaltString::encode_b64(b"another salt 16b").unwrap();
    Argon2::default().hash_password(password.as_bytes(), &salt).unwrap().to_string()
}

fn issue() -> BodyData {
    BodyData {
        title: "Newsletter title".to_string(),
        content: Content {
            text: "Newsletter body as plain text".to_string(),
            html: "<p>Newsletter body as HTML</p>".to_string(),
        },
    }
}

fn auth_headers(value: &[u8]) -> Headers {
    Headers {
        fields: vec![HeaderField { name: b"authorization".to_vec(), value: value.to_vec() }],
    }
}

fn status_of(action: &PublishAction) -> Option<u16> {
    match action {
        PublishAction::Respond(status) => Some(status.code()),
        _ => None,
    }
}

/// Runs a publication against a fake world: the stored credentials of
/// `user`, confirmed subscriber rows, and the outcome of each delivery.
fn run(
    header: &[u8],
    stored: impl Fn(&str) -> StoredCredentials,
    rows: Vec<Result<String, String>>,
    deliveries: &[bool],
) -> (Vec<String>, u16) {
    let (mut state, mut action) = publish_newsletter_start(&auth_headers(header), issue());
    let mut sent = Vec::new();
    let mut deliveries = deliveries.iter();
    loop {
        let event = match &action {
            PublishAction::FetchStoredCredentials { username } => {
                PublishEvent::StoredCredentials(stored(username))
            }
            PublishAction::FetchConfirmedSubscribers { user_id } => {
                assert_eq!(*user_id, 7);
                PublishEvent::ConfirmedSubscribers(rows.clone())
            }
            PublishAction::SendIssue { recipient, issue } => {
                assert_eq!(issue.title, "Newsletter title");
                assert_eq!(issue.content.html, "<p>Newsletter body as HTML</p>");
                sent.push(recipient.clone());
                PublishEvent::Delivery(*deliveries.next().unwrap())
            }
            PublishAction::Respond(status) => {
                assert!(matches!(state, PublishState::Finished));
                return (sent, status.code());
            }
        };
        let next = publish_newsletter_step(state, event);
        state = next.0;
        action = next.1;
    }
}

fn alice(phc: String) -> impl Fn(&str) -> StoredCredentials {
    move |username: &str| {
        assert_eq!(username, "alice");
        StoredCredentials::Found { user_id: 7, password_hash: phc.clone() }
    }
}

fn rows() -> Vec<Result<String, String>> {
    vec![
        Ok("a@example.com".to_string()),
        Err("not an email".to_string()),
        Ok("b@example.com".to_string()),
        Ok("c@example.com".to_string()),
    ]
}

// "alice:secret"
const ALICE_SECRET: &[u8] = b"Basic YWxpY2U6c2VjcmV0";
// "alice:wrong"
const ALICE_WRONG: &[u8] = b"Basic YWxpY2U6d3Jvbmc=";

#[test]
fn issue_is_sent_to_every_confirmed_subscriber() {
    let (sent, status) = run(ALICE_SECRET, alice(phc_of("secret")), rows(), &[true, true, true]);
    assert_eq!(sent, vec!["a@example.com", "b@example.com", "c@example.com"]);
    assert_eq!(status, 200);
}

#[test]
fn no_subscribers_answers_200() {
    let (sent, status) = run(ALICE_SECRET, alice(phc_of("secret")), vec![Err("bad".to_string())], &[]);
    assert!(sent.is_empty());
    assert_eq!(status, 200);
}

#[test]
fn failed_delivery_answers_500_and_stops() {
    let (sent, status) = run(ALICE_SECRET, alice(phc_of("secret")), rows(), &[true, false]);
    assert_eq!(sent, vec!["a@example.com", "b@example.com"]);
    assert_eq!(status, 500);
}

#[test]
fn wrong_password_answers_401() {
    let (sent, status) = run(ALICE_WRONG, alice(phc_of("secret")), rows(), &[]);
    assert!(sent.is_empty());
    assert_eq!(status, 401);
}

#[test]
fn missing_credentials_answer_401() {
    let (state, action) = publish_newsletter_start(&Headers { fields: vec![] }, issue());
    assert!(matches!(state, PublishState::Finished));
    assert_eq!(status_of(&action), Some(401));
    let (_, action) = publish_newsletter_start(&auth_headers(b"Basic !!"), issue());
    assert_eq!(status_of(&action), Some(401));
}

#[test]
fn failed_lookup_answers_401() {
    let (sent, status) = run(ALICE_SECRET, |_: &str| StoredCredentials::QueryFailed, rows(), &[]);
    assert!(sent.is_empty());
    assert_eq!(status, 401);
}

#[test]
fn malformed_stored_hash_answers_401() {
    let (_, status) = run(ALICE_SECRET, alice("garbage".to_string()), rows(), &[]);
    assert_eq!(status, 401);
}

#[test]
fn credentials_are_validated() {
    let stored = StoredCredentials::Found { user_id: 42, password_hash: phc_of("pw") };
    assert_eq!(validate_credentials(&stored, "pw"), Ok(42));
    assert_eq!(validate_credentials(&stored, "pw2"), Err(CredentialError::InvalidPassword));
    assert_eq!(
        validate_credentials(&StoredCredentials::QueryFailed, "pw"),
        Err(CredentialError::LookupFailed)
    );
    let malformed = StoredCredentials::Found { user_id: 42, password_hash: "garbage".to_string() };
    assert_eq!(validate_credentials(&malformed, "pw"), Err(CredentialError::MalformedHash));
}

#[test]
fn valid_rows_are_kept_in_order() {
    let kept: Vec<String> = confirmed_subscribers(&rows()).into_iter().map(|c| c.email).collect();
    assert_eq!(kept, vec!["a@example.com", "b@example.com", "c@example.com"]);
    assert!(confirmed_subscribers(&vec![]).is_empty());
}

#[test]
fn each_valid_row_is_sent_once() {
    let rows = vec![
        Ok("a@example.com".to_string()),
        Ok("a@example.com".to_string()),
        Err("bad".to_string()),
    ];
    let (sent, status) = run(ALICE_SECRET, alice(phc_of("secret")), rows, &[true, true]);
    assert_eq!(sent, vec!["a@example.com", "a@example.com"]);
    assert_eq!(status, 200);
}
