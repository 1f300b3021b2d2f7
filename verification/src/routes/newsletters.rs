use vstd::prelude::*;
use vstd::utf8::{
    decode_utf8, decode_utf8_encode_utf8, encode_utf8, encode_utf8_decode_utf8,
    is_char_boundary, is_char_boundary_iff_is_leading_byte, valid_utf8, valid_utf8_split,
};

use crate::codec::{base64_standard_decode, decode_standard_base64, string_from_utf8};
use crate::password::{argon2_accepts, phc_string_is_well_formed, StoredPasswordHash};
use crate::status::ResponseStatus;

verus! {

/// One field of a request's header: its name, in the lower case in which
/// HTTP header maps keep names, and its raw value.
pub struct HeaderField {
    pub name: Vec<u8>,
    pub value: Vec<u8>,
}

/// The header of a request, its fields in the order in which they came.
pub struct Headers {
    pub fields: Vec<HeaderField>,
}

/// The name of the field that carries the credentials: `authorization`.
pub open spec fn authorization_name() -> Seq<u8> {
    seq![97u8, 117, 116, 104, 111, 114, 105, 122, 97, 116, 105, 111, 110]
}

/// The scheme prefix of a Basic authorization value: `"Basic "`.
pub open spec fn basic_scheme_prefix() -> Seq<u8> {
    seq![66u8, 97, 115, 105, 99, 32]
}

/// The byte of the separator between user name and password: `':'`.
pub open spec fn colon() -> u8 {
    58u8
}

/// The value of the first field named `authorization`, as a header map's
/// lookup returns it.
pub open spec fn first_authorization_value(fields: Seq<HeaderField>) -> Option<Seq<u8>>
    decreases fields.len(),
{
    if fields.len() == 0 {
        None
    } else if fields[0].name@ == authorization_name() {
        Some(fields[0].value@)
    } else {
        first_authorization_value(fields.drop_first())
    }
}

/// A byte that a header value may hold and still be read as text: a tab or
/// a visible ASCII character (space included).
pub open spec fn is_visible_ascii(b: u8) -> bool {
    (32 <= b && b < 127) || b == 9
}

/// Whether a header value can be read as text: every byte is a tab or
/// visible ASCII.
pub open spec fn all_visible_ascii(bytes: Seq<u8>) -> bool {
    forall|i: int| 0 <= i < bytes.len() ==> is_visible_ascii(#[trigger] bytes[i])
}

/// Why a request carries no usable Basic credentials.
#[derive(Clone, Copy, Debug, PartialEq, Eq, Structural)]
pub enum AuthError {
    /// No `authorization` field.
    MissingHeader,
    /// The value holds a byte that is neither a tab nor visible ASCII.
    NotVisibleAscii,
    /// The value does not start with `"Basic "`.
    NotBasicScheme,
    /// What follows the scheme is not standard base64.
    NotBase64,
    /// The decoded credentials are not UTF-8.
    NotUtf8,
    /// The decoded credentials hold no `':'` before a password.
    MissingPassword,
}

/// User name and password taken from a request.
pub struct Credentials {
    pub username: String,
    pub password: String,
}

/// Splits decoded credentials at their first `':'`: the text before it is
/// the user name, the text after it the password.
pub open spec fn spec_split_credentials(decoded: Seq<u8>) -> Result<(Seq<char>, Seq<char>), AuthError> {
    if !valid_utf8(decoded) {
        Err(AuthError::NotUtf8)
    } else {
        match decoded.index_of_first(colon()) {
            None => Err(AuthError::MissingPassword),
            Some(i) => Ok(
                (
                    decode_utf8(decoded.subrange(0, i)),
                    decode_utf8(decoded.subrange(i + 1, decoded.len() as int)),
                ),
            ),
        }
    }
}

/// The credentials that an authorization value holds.
pub open spec fn spec_basic_credentials(value: Seq<u8>) -> Result<(Seq<char>, Seq<char>), AuthError> {
    if !all_visible_ascii(value) {
        Err(AuthError::NotVisibleAscii)
    } else if !(value.len() >= 6 && value.subrange(0, 6) == basic_scheme_prefix()) {
        Err(AuthError::NotBasicScheme)
    } else {
        match base64_standard_decode(value.subrange(6, value.len() as int)) {
            None => Err(AuthError::NotBase64),
            Some(decoded) => spec_split_credentials(decoded),
        }
    }
}

/// The credentials that a request's header holds.
pub open spec fn spec_basic_auth(fields: Seq<HeaderField>) -> Result<(Seq<char>, Seq<char>), AuthError> {
    match first_authorization_value(fields) {
        None => Err(AuthError::MissingHeader),
        Some(value) => spec_basic_credentials(value),
    }
}

/// Whether two byte strings are equal.
pub fn bytes_equal(a: &[u8], b: &[u8]) -> (equal: bool)
    ensures
        equal == (a@ == b@),
{
    if a.len() != b.len() {
        return false;
    }
    let n = a.len();
    let mut i: usize = 0;
    while i < n
        invariant
            n == a@.len(),
            n == b@.len(),
            i <= n,
            forall|j: int| 0 <= j < i ==> a@[j] == b@[j],
        decreases n - i,
    {
        if a[i] != b[i] {
            return false;
        }
        i = i + 1;
    }
    assert(a@ =~= b@);
    true
}

impl Headers {
    /// The value of the first `authorization` field.
    pub fn authorization(&self) -> (value: Option<&Vec<u8>>)
        ensures
            match value {
                Some(v) => first_authorization_value(self.fields@) == Some(v@),
                None => first_authorization_value(self.fields@) is None,
            },
    {
        let name: Vec<u8> = vec![97u8, 117, 116, 104, 111, 114, 105, 122, 97, 116, 105, 111, 110];
        assert(name@ =~= authorization_name());
        let n = self.fields.len();
        let mut i: usize = 0;
        assert(self.fields@.subrange(0, n as int) =~= self.fields@);
        while i < n
            invariant
                n == self.fields@.len(),
                i <= n,
                name@ == authorization_name(),
                first_authorization_value(self.fields@) == first_authorization_value(
                    self.fields@.subrange(i as int, n as int),
                ),
            decreases n - i,
        {
            let field = &self.fields[i];
            assert(self.fields@.subrange(i as int, n as int).drop_first() =~= self.fields@.subrange(
                i + 1,
                n as int,
            ));
            if bytes_equal(field.name.as_slice(), name.as_slice()) {
                return Some(&field.value);
            }
            i = i + 1;
        }
        None
    }
}

/// The index of the first `':'` in `bytes`, if there is one.
fn find_colon(bytes: &[u8]) -> (index: Option<usize>)
    ensures
        match index {
            Some(i) => bytes@.index_of_first(colon()) == Some(i as int),
            None => bytes@.index_of_first(colon()) is None,
        },
{
    let n = bytes.len();
    let mut i: usize = 0;
    while i < n
        invariant
            n == bytes@.len(),
            i <= n,
            forall|j: int| 0 <= j < i ==> bytes@[j] != colon(),
        decreases n - i,
    {
        if bytes[i] == 58u8 {
            proof {
                bytes@.index_of_first_ensures(colon());
                assert(bytes@[i as int] == colon());
                assert(bytes@.contains(colon()));
                let k = bytes@.index_of_first(colon()).unwrap();
                if k < i {
                    assert(bytes@[k] != colon());
                }
                if k > i {
                    assert(bytes@[i as int] != colon());
                }
            }
            return Some(i);
        }
        i = i + 1;
    }
    proof {
        bytes@.index_of_first_ensures(colon());
        if bytes@.contains(colon()) {
            let k = choose|k: int| 0 <= k < bytes@.len() && bytes@[k] == colon();
            assert(bytes@[k] != colon());
        }
    }
    None
}

/// Splits decoded credentials at their first `':'` into user name and
/// password.
pub fn split_credentials(decoded: Vec<u8>) -> (credentials: Result<Credentials, AuthError>)
    ensures
        match credentials {
            Ok(c) => spec_split_credentials(decoded@) == Ok::<_, AuthError>((c.username@, c.password@)),
            Err(e) => spec_split_credentials(decoded@) == Err::<(Seq<char>, Seq<char>), _>(e),
        },
{
    let ghost d = decoded@;
    let text = match string_from_utf8(decoded) {
        Some(t) => t,
        None => return Err(AuthError::NotUtf8),
    };
    proof {
        decode_utf8_encode_utf8(d);
        encode_utf8_decode_utf8(text@);
    }
    let s = text.as_str();
    let bytes = s.as_bytes();
    assert(bytes@ == d);
    match find_colon(bytes) {
        None => Err(AuthError::MissingPassword),
        Some(i) => {
            proof {
                d.index_of_first_ensures(colon());
                is_char_boundary_iff_is_leading_byte(d, i as int);
                valid_utf8_split(d, i as int);
                let rest = d.subrange(i as int, d.len() as int);
                assert(rest[0] == colon());
                assert(is_char_boundary(rest, 1)) by {
                    reveal_with_fuel(is_char_boundary, 2);
                }
            }
            let (user, rest) = s.split_at(i);
            let (_, pass) = rest.split_at(1);
            proof {
                let r = d.subrange(i as int, d.len() as int);
                assert(r.subrange(1, r.len() as int) =~= d.subrange(i + 1, d.len() as int));
                encode_utf8_decode_utf8(user@);
                encode_utf8_decode_utf8(pass@);
            }
            Ok(Credentials { username: user.to_owned(), password: pass.to_owned() })
        },
    }
}

/// Whether every byte is a tab or visible ASCII, as a header value must be
/// to be read as text.
pub fn is_visible_ascii_text(bytes: &[u8]) -> (visible: bool)
    ensures
        visible == all_visible_ascii(bytes@),
{
    let n = bytes.len();
    let mut i: usize = 0;
    while i < n
        invariant
            n == bytes@.len(),
            i <= n,
            forall|j: int| 0 <= j < i ==> is_visible_ascii(#[trigger] bytes@[j]),
        decreases n - i,
    {
        let b = bytes[i];
        if !((32 <= b && b < 127) || b == 9) {
            assert(!is_visible_ascii(bytes@[i as int]));
            return false;
        }
        i = i + 1;
    }
    true
}

/// Reads the Basic credentials of a request: the first `authorization`
/// field must be text of the form `"Basic "` followed by the standard base64
/// encoding of `user:password` in UTF-8.
pub fn basic_auth(headers: &Headers) -> (credentials: Result<Credentials, AuthError>)
    ensures
        match credentials {
            Ok(c) => spec_basic_auth(headers.fields@) == Ok::<_, AuthError>((c.username@, c.password@)),
            Err(e) => spec_basic_auth(headers.fields@) == Err::<(Seq<char>, Seq<char>), _>(e),
        },
{
    let value = match headers.authorization() {
        Some(v) => v,
        None => return Err(AuthError::MissingHeader),
    };
    let bytes = value.as_slice();
    if !is_visible_ascii_text(bytes) {
        return Err(AuthError::NotVisibleAscii);
    }
    let prefix: Vec<u8> = vec![66u8, 97, 115, 105, 99, 32];
    assert(prefix@ =~= basic_scheme_prefix());
    if bytes.len() < 6 {
        return Err(AuthError::NotBasicScheme);
    }
    let (scheme, encoded) = bytes.split_at(6);
    if !bytes_equal(scheme, prefix.as_slice()) {
        return Err(AuthError::NotBasicScheme);
    }
    match decode_standard_base64(encoded) {
        None => Err(AuthError::NotBase64),
        Some(decoded) => split_credentials(decoded),
    }
}

/// Why stored credentials do not admit a request.
#[derive(Clone, Copy, Debug, PartialEq, Eq, Structural)]
pub enum CredentialError {
    /// The stored credentials could not be looked up.
    LookupFailed,
    /// The stored hash is not a PHC string.
    MalformedHash,
    /// The password does not match the stored hash.
    InvalidPassword,
}

/// The outcome of checking a password candidate against a stored hash.
pub open spec fn spec_verify_password_hash(expected_password_hash: Seq<char>, password_candidate: Seq<char>) -> Result<(), CredentialError> {
    if !phc_string_is_well_formed(expected_password_hash) {
        Err(CredentialError::MalformedHash)
    } else if argon2_accepts(expected_password_hash, encode_utf8(password_candidate)) {
        Ok(())
    } else {
        Err(CredentialError::InvalidPassword)
    }
}

/// Checks a password candidate against a stored hash in the PHC string
/// format with Argon2 and its default settings.
pub fn verify_password_hash(expected_password_hash: &str, password_candidate: &str) -> (verified: Result<(), CredentialError>)
    ensures
        verified == spec_verify_password_hash(expected_password_hash@, password_candidate@),
{
    let stored = match StoredPasswordHash::parse(expected_password_hash) {
        Some(h) => h,
        None => return Err(CredentialError::MalformedHash),
    };
    if stored.verifies(password_candidate.as_bytes()) {
        Ok(())
    } else {
        Err(CredentialError::InvalidPassword)
    }
}

/// A newsletter issue as a publication request carries it.
pub struct BodyData {
    pub title: String,
    pub content: Content,
}

/// The two renderings of an issue's body.
pub struct Content {
    pub text: String,
    pub html: String,
}

/// An issue as text.
pub struct IssueView {
    pub title: Seq<char>,
    pub text: Seq<char>,
    pub html: Seq<char>,
}

impl View for BodyData {
    type V = IssueView;

    open spec fn view(&self) -> IssueView {
        IssueView { title: self.title@, text: self.content.text@, html: self.content.html@ }
    }
}

impl BodyData {
    /// A copy of the issue.
    pub fn duplicate(&self) -> (copy: BodyData)
        ensures
            copy@ == self@,
    {
        BodyData {
            title: self.title.clone(),
            content: Content { text: self.content.text.clone(), html: self.content.html.clone() },
        }
    }
}

/// A subscriber who confirmed the subscription and whose address is valid.
pub struct ConfirmedSubscriber {
    pub email: String,
}

/// The addresses of confirmed subscribers, each row given as the outcome
/// of validating its address: `Ok` with the address, or `Err` with the
/// reason it was rejected.
pub open spec fn rows_view(rows: Seq<Result<String, String>>) -> Seq<Result<Seq<char>, Seq<char>>> {
    rows.map_values(
        |r: Result<String, String>|
            match r {
                Ok(e) => Ok(e@),
                Err(m) => Err(m@),
            },
    )
}

/// The valid addresses among the rows, in their order; rows whose address
/// was rejected are skipped.
pub open spec fn spec_confirmed_subscribers(rows: Seq<Result<Seq<char>, Seq<char>>>) -> Seq<Seq<char>>
    decreases rows.len(),
{
    if rows.len() == 0 {
        Seq::empty()
    } else {
        let kept = spec_confirmed_subscribers(rows.drop_last());
        match rows.last() {
            Ok(email) => kept.push(email),
            Err(_) => kept,
        }
    }
}

/// The addresses of the subscribers, in order.
pub open spec fn subscriber_emails(subscribers: Seq<ConfirmedSubscriber>) -> Seq<Seq<char>> {
    subscribers.map_values(|c: ConfirmedSubscriber| c.email@)
}

/// Keeps the subscribers whose address was validated, in order.
pub fn confirmed_subscribers(rows: &Vec<Result<String, String>>) -> (subscribers: Vec<ConfirmedSubscriber>)
    ensures
        subscriber_emails(subscribers@) == spec_confirmed_subscribers(rows_view(rows@)),
{
    let mut subscribers: Vec<ConfirmedSubscriber> = Vec::new();
    let n = rows.len();
    let mut i: usize = 0;
    while i < n
        invariant
            n == rows@.len(),
            i <= n,
            subscriber_emails(subscribers@) == spec_confirmed_subscribers(
                rows_view(rows@).subrange(0, i as int),
            ),
        decreases n - i,
    {
        let ghost before = subscribers@;
        assert(rows_view(rows@).subrange(0, i + 1).drop_last() =~= rows_view(rows@).subrange(
            0,
            i as int,
        ));
        match &rows[i] {
            Ok(email) => {
                subscribers.push(ConfirmedSubscriber { email: email.clone() });
                assert(subscriber_emails(subscribers@) =~= subscriber_emails(before).push(email@));
            },
            Err(_) => {},
        }
        i = i + 1;
    }
    assert(rows_view(rows@).subrange(0, n as int) =~= rows_view(rows@));
    subscribers
}

/// What the lookup of a user's stored credentials found.
pub enum StoredCredentials {
    /// The query could not be run.
    QueryFailed,
    /// No user of that name.
    NotFound,
    /// The user's id and the PHC string of the user's password hash.
    Found { user_id: u128, password_hash: String },
}

/// Stored credentials as plain values.
pub enum StoredCredentialsView {
    QueryFailed,
    NotFound,
    Found { user_id: u128, password_hash: Seq<char> },
}

impl View for StoredCredentials {
    type V = StoredCredentialsView;

    open spec fn view(&self) -> StoredCredentialsView {
        match self {
            StoredCredentials::QueryFailed => StoredCredentialsView::QueryFailed,
            StoredCredentials::NotFound => StoredCredentialsView::NotFound,
            StoredCredentials::Found { user_id, password_hash } => StoredCredentialsView::Found {
                user_id: *user_id,
                password_hash: password_hash@,
            },
        }
    }
}

/// Which user stored credentials admit: the user's id where the user was
/// found and the password matches the stored hash; else why not (a user
/// that is not found is no input, see `validate_credentials`).
pub open spec fn spec_validate_credentials(stored: StoredCredentialsView, password: Seq<char>) -> Result<u128, CredentialError> {
    match stored {
        StoredCredentialsView::Found { user_id, password_hash } => {
            match spec_verify_password_hash(password_hash, password) {
                Ok(()) => Ok(user_id),
                Err(e) => Err(e),
            }
        },
        _ => Err(CredentialError::LookupFailed),
    }
}

/// Decides whether the stored credentials admit the password, and where
/// they do not, why; a user that does not exist is no input (the lookup's
/// caller fails first).
pub fn validate_credentials(stored: &StoredCredentials, password: &str) -> (user_id: Result<u128, CredentialError>)
    requires
        !(stored@ is NotFound),
    ensures
        user_id == spec_validate_credentials(stored@, password@),
{
    match stored {
        StoredCredentials::Found { user_id, password_hash } => {
            match verify_password_hash(password_hash.as_str(), password) {
                Ok(()) => Ok(*user_id),
                Err(e) => Err(e),
            }
        },
        _ => Err(CredentialError::LookupFailed),
    }
}

/// Where the publication of an issue stands.
pub enum PublishState {
    /// The user's stored credentials have been asked for.
    AwaitingStoredCredentials { password: String, issue: BodyData },
    /// The confirmed subscribers have been asked for.
    AwaitingSubscribers { user_id: u128, issue: BodyData },
    /// The issue has been handed on for `subscribers[next]`.
    Delivering { issue: BodyData, subscribers: Vec<ConfirmedSubscriber>, next: usize },
    /// The request has been answered.
    Finished,
}

/// What the outside world reports back.
pub enum PublishEvent {
    /// The outcome of looking up the stored credentials.
    StoredCredentials(StoredCredentials),
    /// The rows of confirmed subscribers, each as the outcome of validating
    /// its address.
    ConfirmedSubscribers(Vec<Result<String, String>>),
    /// Whether the last issue was delivered.
    Delivery(bool),
}

/// What the outside world is asked to do next.
pub enum PublishAction {
    /// Look up the stored credentials of the user of this name.
    FetchStoredCredentials { username: String },
    /// Load the confirmed subscribers; the request is made by this user.
    FetchConfirmedSubscribers { user_id: u128 },
    /// Deliver the issue to this address.
    SendIssue { recipient: String, issue: BodyData },
    /// Answer the request with this status.
    Respond(ResponseStatus),
}

/// A publication's state as plain values.
pub enum PublishStateView {
    AwaitingStoredCredentials { password: Seq<char>, issue: IssueView },
    AwaitingSubscribers { user_id: u128, issue: IssueView },
    Delivering { issue: IssueView, subscribers: Seq<Seq<char>>, next: int },
    Finished,
}

/// A report of the outside world as plain values.
pub enum PublishEventView {
    StoredCredentials(StoredCredentialsView),
    ConfirmedSubscribers(Seq<Result<Seq<char>, Seq<char>>>),
    Delivery(bool),
}

/// An action as plain values.
pub enum PublishActionView {
    FetchStoredCredentials { username: Seq<char> },
    FetchConfirmedSubscribers { user_id: u128 },
    SendIssue { recipient: Seq<char>, issue: IssueView },
    Respond(ResponseStatus),
}

impl View for PublishState {
    type V = PublishStateView;

    open spec fn view(&self) -> PublishStateView {
        match self {
            PublishState::AwaitingStoredCredentials { password, issue } =>
                PublishStateView::AwaitingStoredCredentials { password: password@, issue: issue@ },
            PublishState::AwaitingSubscribers { user_id, issue } =>
                PublishStateView::AwaitingSubscribers { user_id: *user_id, issue: issue@ },
            PublishState::Delivering { issue, subscribers, next } => PublishStateView::Delivering {
                issue: issue@,
                subscribers: subscriber_emails(subscribers@),
                next: *next as int,
            },
            PublishState::Finished => PublishStateView::Finished,
        }
    }
}

impl View for PublishEvent {
    type V = PublishEventView;

    open spec fn view(&self) -> PublishEventView {
        match self {
            PublishEvent::StoredCredentials(s) => PublishEventView::StoredCredentials(s@),
            PublishEvent::ConfirmedSubscribers(rows) => PublishEventView::ConfirmedSubscribers(
                rows_view(rows@),
            ),
            PublishEvent::Delivery(ok) => PublishEventView::Delivery(*ok),
        }
    }
}

impl View for PublishAction {
    type V = PublishActionView;

    open spec fn view(&self) -> PublishActionView {
        match self {
            PublishAction::FetchStoredCredentials { username } =>
                PublishActionView::FetchStoredCredentials { username: username@ },
            PublishAction::FetchConfirmedSubscribers { user_id } =>
                PublishActionView::FetchConfirmedSubscribers { user_id: *user_id },
            PublishAction::SendIssue { recipient, issue } => PublishActionView::SendIssue {
                recipient: recipient@,
                issue: issue@,
            },
            PublishAction::Respond(status) => PublishActionView::Respond(*status),
        }
    }
}

/// How a publication request begins: with Basic credentials the user's
/// stored credentials are looked up, without them the request is refused.
pub open spec fn spec_publish_start(fields: Seq<HeaderField>, issue: IssueView) -> (PublishStateView, PublishActionView) {
    match spec_basic_auth(fields) {
        Ok((username, password)) => (
            PublishStateView::AwaitingStoredCredentials { password, issue },
            PublishActionView::FetchStoredCredentials { username },
        ),
        Err(_) => (PublishStateView::Finished, PublishActionView::Respond(ResponseStatus::Unauthorized)),
    }
}

/// Whether `event` answers what `state` waits for, and is one on which the
/// request goes on (a user that is not found stops it before).
pub open spec fn event_answers(state: PublishStateView, event: PublishEventView) -> bool {
    match state {
        PublishStateView::AwaitingStoredCredentials { .. } => match event {
            PublishEventView::StoredCredentials(stored) => !(stored is NotFound),
            _ => false,
        },
        PublishStateView::AwaitingSubscribers { .. } => event is ConfirmedSubscribers,
        PublishStateView::Delivering { subscribers, next, .. } => event is Delivery && 0 <= next
            < subscribers.len(),
        PublishStateView::Finished => false,
    }
}

/// How a publication request goes on from `state` once `event` is reported.
pub open spec fn spec_publish_step(state: PublishStateView, event: PublishEventView) -> (PublishStateView, PublishActionView) {
    let refuse = (PublishStateView::Finished, PublishActionView::Respond(ResponseStatus::Unauthorized));
    let fail = (PublishStateView::Finished, PublishActionView::Respond(ResponseStatus::InternalServerError));
    let done = (PublishStateView::Finished, PublishActionView::Respond(ResponseStatus::Success));
    match (state, event) {
        (
            PublishStateView::AwaitingStoredCredentials { password, issue },
            PublishEventView::StoredCredentials(stored),
        ) => match spec_validate_credentials(stored, password) {
            Ok(user_id) => (
                PublishStateView::AwaitingSubscribers { user_id, issue },
                PublishActionView::FetchConfirmedSubscribers { user_id },
            ),
            Err(_) => refuse,
        },
        (
            PublishStateView::AwaitingSubscribers { issue, .. },
            PublishEventView::ConfirmedSubscribers(rows),
        ) => {
            let subscribers = spec_confirmed_subscribers(rows);
            if subscribers.len() == 0 {
                done
            } else {
                (
                    PublishStateView::Delivering { issue, subscribers, next: 0 },
                    PublishActionView::SendIssue { recipient: subscribers[0], issue },
                )
            }
        },
        (
            PublishStateView::Delivering { issue, subscribers, next },
            PublishEventView::Delivery(delivered),
        ) => {
            if !delivered {
                fail
            } else if next + 1 >= subscribers.len() {
                done
            } else {
                (
                    PublishStateView::Delivering { issue, subscribers, next: next + 1 },
                    PublishActionView::SendIssue { recipient: subscribers[next + 1], issue },
                )
            }
        },
        _ => fail,
    }
}

/// Begins to publish `issue`: reads the Basic credentials of the request.
pub fn publish_newsletter_start(headers: &Headers, issue: BodyData) -> (step: (PublishState, PublishAction))
    ensures
        (step.0@, step.1@) == spec_publish_start(headers.fields@, issue@),
{
    match basic_auth(headers) {
        Ok(credentials) => (
            PublishState::AwaitingStoredCredentials { password: credentials.password, issue },
            PublishAction::FetchStoredCredentials { username: credentials.username },
        ),
        Err(_) => (PublishState::Finished, PublishAction::Respond(ResponseStatus::Unauthorized)),
    }
}

/// Goes on with a publication once the outside world reports `event`.
pub fn publish_newsletter_step(state: PublishState, event: PublishEvent) -> (step: (PublishState, PublishAction))
    requires
        event_answers(state@, event@),
    ensures
        (step.0@, step.1@) == spec_publish_step(state@, event@),
{
    match state {
        PublishState::AwaitingStoredCredentials { password, issue } => match event {
            PublishEvent::StoredCredentials(stored) => match validate_credentials(&stored, password.as_str()) {
                Ok(user_id) => (
                    PublishState::AwaitingSubscribers { user_id, issue },
                    PublishAction::FetchConfirmedSubscribers { user_id },
                ),
                Err(_) => (PublishState::Finished, PublishAction::Respond(ResponseStatus::Unauthorized)),
            },
            _ => (PublishState::Finished, PublishAction::Respond(ResponseStatus::InternalServerError)),
        },
        PublishState::AwaitingSubscribers { user_id, issue } => match event {
            PublishEvent::ConfirmedSubscribers(rows) => {
                let subscribers = confirmed_subscribers(&rows);
                if subscribers.len() == 0 {
                    (PublishState::Finished, PublishAction::Respond(ResponseStatus::Success))
                } else {
                    let recipient = subscribers[0].email.clone();
                    let copy = issue.duplicate();
                    (
                        PublishState::Delivering { issue, subscribers, next: 0 },
                        PublishAction::SendIssue { recipient, issue: copy },
                    )
                }
            },
            _ => (PublishState::Finished, PublishAction::Respond(ResponseStatus::InternalServerError)),
        },
        PublishState::Delivering { issue, subscribers, next } => match event {
            PublishEvent::Delivery(delivered) => {
                assert(subscriber_emails(subscribers@).len() == subscribers@.len());
                let count = subscribers.len();
                if !delivered {
                    (PublishState::Finished, PublishAction::Respond(ResponseStatus::InternalServerError))
                } else if next + 1 >= count {
                    (PublishState::Finished, PublishAction::Respond(ResponseStatus::Success))
                } else {
                    let recipient = subscribers[next + 1].email.clone();
                    let copy = issue.duplicate();
                    (
                        PublishState::Delivering { issue, subscribers, next: next + 1 },
                        PublishAction::SendIssue { recipient, issue: copy },
                    )
                }
            },
            _ => (PublishState::Finished, PublishAction::Respond(ResponseStatus::InternalServerError)),
        },
        PublishState::Finished => (PublishState::Finished, PublishAction::Respond(ResponseStatus::InternalServerError)),
    }
}

} // verus!
