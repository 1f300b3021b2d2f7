use vstd::prelude::*;
use vstd::utf8::{
    char_u32_cast, decode_utf8, encode_scalar, encode_utf8, encode_utf8_decode_utf8,
    encode_utf8_valid_utf8, has_width_1_encoding, is_scalar,
};

use crate::codec::base64_standard_decode;
use crate::routes::newsletters::{
    all_visible_ascii, authorization_name, basic_scheme_prefix, first_authorization_value, is_visible_ascii, AuthError, colon, spec_basic_credentials, spec_split_credentials,
    spec_basic_auth, spec_confirmed_subscribers, spec_publish_start, spec_publish_step,
    spec_validate_credentials, spec_verify_password_hash, HeaderField, CredentialError,
    rows_view, subscriber_emails, ConfirmedSubscriber, StoredCredentialsView, IssueView, PublishActionView, PublishEventView,
    PublishStateView,
};
use crate::password::{argon2_accepts, phc_string_is_well_formed};
use crate::routes::subscriptions::spec_subscribe_response;
use crate::status::ResponseStatus;

verus! {

/// The state a publication reaches, and the actions it asks for on the way,
/// when the outside world reports `events` one after the other.
pub open spec fn spec_publish_run(state: PublishStateView, events: Seq<PublishEventView>) -> (PublishStateView, Seq<PublishActionView>)
    decreases events.len(),
{
    if events.len() == 0 {
        (state, Seq::empty())
    } else {
        let (next, action) = spec_publish_step(state, events[0]);
        let (last, actions) = spec_publish_run(next, events.drop_first());
        (last, seq![action] + actions)
    }
}

/// `count` reports of successful deliveries.
pub open spec fn deliveries_succeed(count: nat) -> Seq<PublishEventView> {
    Seq::new(count, |k: int| PublishEventView::Delivery(true))
}

/// The deliveries of `issue` to `subscribers[from..from + count]`, in order.
pub open spec fn sends(issue: IssueView, subscribers: Seq<Seq<char>>, from: int, count: nat) -> Seq<PublishActionView> {
    Seq::new(count, |k: int| PublishActionView::SendIssue { recipient: subscribers[from + k], issue })
}

proof fn lemma_delivering_all_succeed(issue: IssueView, subscribers: Seq<Seq<char>>, next: int)
    requires
        0 <= next < subscribers.len(),
    ensures
        spec_publish_run(
            PublishStateView::Delivering { issue, subscribers, next },
            deliveries_succeed((subscribers.len() - next) as nat),
        ) == (
            PublishStateView::Finished,
            sends(issue, subscribers, next + 1, (subscribers.len() - next - 1) as nat).push(
                PublishActionView::Respond(ResponseStatus::Success),
            ),
        ),
    decreases subscribers.len() - next,
{
    let events = deliveries_succeed((subscribers.len() - next) as nat);
    let state = PublishStateView::Delivering { issue, subscribers, next };
    assert(events[0] == PublishEventView::Delivery(true));
    let after = spec_publish_step(state, events[0]);
    let tail = spec_publish_run(after.0, events.drop_first());
    assert(spec_publish_run(state, events) == (tail.0, seq![after.1] + tail.1));
    if next + 1 < subscribers.len() {
        assert(after == (
            PublishStateView::Delivering { issue, subscribers, next: next + 1 },
            PublishActionView::SendIssue { recipient: subscribers[next + 1], issue },
        ));
        lemma_delivering_all_succeed(issue, subscribers, next + 1);
        assert(events.drop_first() =~= deliveries_succeed((subscribers.len() - next - 1) as nat));
        let rest = sends(issue, subscribers, next + 2, (subscribers.len() - next - 2) as nat).push(
            PublishActionView::Respond(ResponseStatus::Success),
        );
        assert(seq![PublishActionView::SendIssue { recipient: subscribers[next + 1], issue }] + rest
            =~= sends(issue, subscribers, next + 1, (subscribers.len() - next - 1) as nat).push(
            PublishActionView::Respond(ResponseStatus::Success),
        ));
    } else {
        assert(after == (
            PublishStateView::Finished,
            PublishActionView::Respond(ResponseStatus::Success),
        ));
        assert(events.drop_first() =~= Seq::<PublishEventView>::empty());
        assert(seq![PublishActionView::Respond(ResponseStatus::Success)] + Seq::<PublishActionView>::empty()
            =~= sends(issue, subscribers, next + 1, 0).push(
            PublishActionView::Respond(ResponseStatus::Success),
        ));
    }
}

/// Once the user is admitted, and every delivery succeeds, the issue goes to
/// every confirmed subscriber once, in the order of the rows, and only then
/// is the request answered `200`.
pub proof fn law_issue_reaches_every_confirmed_subscriber(
    user_id: u128,
    issue: IssueView,
    rows: Seq<Result<Seq<char>, Seq<char>>>,
)
    ensures
        ({
            let subscribers = spec_confirmed_subscribers(rows);
            spec_publish_run(
                PublishStateView::AwaitingSubscribers { user_id, issue },
                seq![PublishEventView::ConfirmedSubscribers(rows)] + deliveries_succeed(subscribers.len()),
            ) == (
                PublishStateView::Finished,
                sends(issue, subscribers, 0, subscribers.len()).push(
                    PublishActionView::Respond(ResponseStatus::Success),
                ),
            )
        }),
{
    let subscribers = spec_confirmed_subscribers(rows);
    let events = seq![PublishEventView::ConfirmedSubscribers(rows)] + deliveries_succeed(subscribers.len());
    assert(events[0] == PublishEventView::ConfirmedSubscribers(rows));
    assert(events.drop_first() =~= deliveries_succeed(subscribers.len()));
    let state = PublishStateView::AwaitingSubscribers { user_id, issue };
    let after = spec_publish_step(state, events[0]);
    let tail = spec_publish_run(after.0, events.drop_first());
    assert(spec_publish_run(state, events) == (tail.0, seq![after.1] + tail.1));
    if subscribers.len() == 0 {
        assert(events.drop_first() =~= Seq::<PublishEventView>::empty());
        assert(seq![PublishActionView::Respond(ResponseStatus::Success)] + Seq::<PublishActionView>::empty()
            =~= sends(issue, subscribers, 0, 0).push(PublishActionView::Respond(ResponseStatus::Success)));
    } else {
        lemma_delivering_all_succeed(issue, subscribers, 0);
        let rest = sends(issue, subscribers, 1, (subscribers.len() - 1) as nat).push(
            PublishActionView::Respond(ResponseStatus::Success),
        );
        assert(seq![PublishActionView::SendIssue { recipient: subscribers[0], issue }] + rest
            =~= sends(issue, subscribers, 0, subscribers.len()).push(
            PublishActionView::Respond(ResponseStatus::Success),
        ));
    }
}

proof fn lemma_delivering_fails_after(issue: IssueView, subscribers: Seq<Seq<char>>, next: int, delivered: nat)
    requires
        0 <= next,
        next + delivered < subscribers.len(),
    ensures
        spec_publish_run(
            PublishStateView::Delivering { issue, subscribers, next },
            deliveries_succeed(delivered).push(PublishEventView::Delivery(false)),
        ) == (
            PublishStateView::Finished,
            sends(issue, subscribers, next + 1, delivered).push(
                PublishActionView::Respond(ResponseStatus::InternalServerError),
            ),
        ),
    decreases delivered,
{
    let events = deliveries_succeed(delivered).push(PublishEventView::Delivery(false));
    let state = PublishStateView::Delivering { issue, subscribers, next };
    let after = spec_publish_step(state, events[0]);
    let tail = spec_publish_run(after.0, events.drop_first());
    assert(spec_publish_run(state, events) == (tail.0, seq![after.1] + tail.1));
    if delivered == 0 {
        assert(events[0] == PublishEventView::Delivery(false));
        assert(events.drop_first() =~= Seq::<PublishEventView>::empty());
        assert(seq![PublishActionView::Respond(ResponseStatus::InternalServerError)]
            + Seq::<PublishActionView>::empty() =~= sends(issue, subscribers, next + 1, 0).push(
            PublishActionView::Respond(ResponseStatus::InternalServerError),
        ));
    } else {
        assert(events[0] == PublishEventView::Delivery(true));
        assert(events.drop_first() =~= deliveries_succeed((delivered - 1) as nat).push(
            PublishEventView::Delivery(false),
        ));
        lemma_delivering_fails_after(issue, subscribers, next + 1, (delivered - 1) as nat);
        let rest = sends(issue, subscribers, next + 2, (delivered - 1) as nat).push(
            PublishActionView::Respond(ResponseStatus::InternalServerError),
        );
        assert(seq![PublishActionView::SendIssue { recipient: subscribers[next + 1], issue }] + rest
            =~= sends(issue, subscribers, next + 1, delivered).push(
            PublishActionView::Respond(ResponseStatus::InternalServerError),
        ));
    }
}

/// A failed delivery ends the publication: the request is answered `500`
/// and no subscriber after the one it failed for is sent the issue.
pub proof fn law_failed_delivery_ends_publication(
    user_id: u128,
    issue: IssueView,
    rows: Seq<Result<Seq<char>, Seq<char>>>,
    delivered: nat,
)
    requires
        delivered < spec_confirmed_subscribers(rows).len(),
    ensures
        ({
            let subscribers = spec_confirmed_subscribers(rows);
            spec_publish_run(
                PublishStateView::AwaitingSubscribers { user_id, issue },
                seq![PublishEventView::ConfirmedSubscribers(rows)] + deliveries_succeed(delivered).push(
                    PublishEventView::Delivery(false),
                ),
            ) == (
                PublishStateView::Finished,
                sends(issue, subscribers, 0, delivered + 1).push(
                    PublishActionView::Respond(ResponseStatus::InternalServerError),
                ),
            )
        }),
{
    let subscribers = spec_confirmed_subscribers(rows);
    let events = seq![PublishEventView::ConfirmedSubscribers(rows)] + deliveries_succeed(delivered).push(
        PublishEventView::Delivery(false),
    );
    assert(events[0] == PublishEventView::ConfirmedSubscribers(rows));
    assert(events.drop_first() =~= deliveries_succeed(delivered).push(PublishEventView::Delivery(false)));
    let state = PublishStateView::AwaitingSubscribers { user_id, issue };
    let after = spec_publish_step(state, events[0]);
    let tail = spec_publish_run(after.0, events.drop_first());
    assert(spec_publish_run(state, events) == (tail.0, seq![after.1] + tail.1));
    lemma_delivering_fails_after(issue, subscribers, 0, delivered);
    let rest = sends(issue, subscribers, 1, delivered).push(
        PublishActionView::Respond(ResponseStatus::InternalServerError),
    );
    assert(seq![PublishActionView::SendIssue { recipient: subscribers[0], issue }] + rest
        =~= sends(issue, subscribers, 0, delivered + 1).push(
        PublishActionView::Respond(ResponseStatus::InternalServerError),
    ));
}

/// A publication request without usable Basic credentials is answered
/// `401` at once, and nothing is looked up for it.
pub proof fn law_request_without_credentials_is_refused(fields: Seq<HeaderField>, issue: IssueView)
    requires
        spec_basic_auth(fields) is Err,
    ensures
        spec_publish_start(fields, issue) == (
            PublishStateView::Finished,
            PublishActionView::Respond(ResponseStatus::Unauthorized),
        ),
{
}

/// Where the stored credentials do not admit the password (the lookup
/// failed, the stored hash is malformed, or the password does not match),
/// the request is answered `401` and no subscriber is loaded.
pub proof fn law_rejected_credentials_are_refused(
    password: Seq<char>,
    issue: IssueView,
    stored: StoredCredentialsView,
)
    requires
        spec_validate_credentials(stored, password) is Err,
    ensures
        spec_publish_step(
            PublishStateView::AwaitingStoredCredentials { password, issue },
            PublishEventView::StoredCredentials(stored),
        ) == (PublishStateView::Finished, PublishActionView::Respond(ResponseStatus::Unauthorized)),
{
}

proof fn lemma_encode_scalar_colon(c: char)
    ensures
        encode_scalar(c as u32).contains(colon()) <==> c == ':',
{
    let v = c as u32;
    assert(is_scalar(v));
    if has_width_1_encoding(v) {
        assert(v <= 0x7f ==> (v & 0x7f) == v) by (bit_vector);
        assert(encode_scalar(v)[0] == v as u8);
        char_u32_cast(c, v);
        if encode_scalar(v).contains(colon()) {
            assert(v == 58);
        }
        if c == ':' {
            assert(v == 58);
            assert(encode_scalar(v)[0] == colon());
        }
    } else {
        assert(forall|x: u32| #![auto] (0xC0u8 | (((x >> 6u32) & 0x1Fu32) as u8)) != 58u8) by (bit_vector);
        assert(forall|x: u32| #![auto] (0xE0u8 | (((x >> 12u32) & 0x0Fu32) as u8)) != 58u8) by (bit_vector);
        assert(forall|x: u32| #![auto] (0xF0u8 | (((x >> 18u32) & 0x7u32) as u8)) != 58u8) by (bit_vector);
        assert(forall|x: u32| #![auto] (0x80u8 | ((x & 0x3Fu32) as u8)) != 58u8) by (bit_vector);
        assert(forall|x: u32| #![auto] (0x80u8 | (((x >> 6u32) & 0x3Fu32) as u8)) != 58u8) by (bit_vector);
        assert(forall|x: u32| #![auto] (0x80u8 | (((x >> 12u32) & 0x3Fu32) as u8)) != 58u8) by (bit_vector);
        assert(v != 58);
        assert(c != ':');
        assert(!encode_scalar(v).contains(colon()));
    }
}

proof fn lemma_encode_utf8_concat(a: Seq<char>, b: Seq<char>)
    ensures
        encode_utf8(a + b) == encode_utf8(a) + encode_utf8(b),
    decreases a.len(),
{
    if a.len() == 0 {
        assert(a + b =~= b);
        assert(encode_utf8(a) + encode_utf8(b) =~= encode_utf8(b));
    } else {
        assert((a + b).drop_first() =~= a.drop_first() + b);
        lemma_encode_utf8_concat(a.drop_first(), b);
        assert(encode_utf8(a + b) =~= encode_utf8(a) + encode_utf8(b));
    }
}

proof fn lemma_encode_utf8_colon(chars: Seq<char>)
    ensures
        encode_utf8(chars).contains(colon()) <==> chars.contains(':'),
    decreases chars.len(),
{
    if chars.len() > 0 {
        lemma_encode_scalar_colon(chars[0]);
        lemma_encode_utf8_colon(chars.drop_first());
        let head = encode_scalar(chars[0] as u32);
        let rest = encode_utf8(chars.drop_first());
        assert(encode_utf8(chars) == head + rest);
        if encode_utf8(chars).contains(colon()) {
            let k = choose|k: int| 0 <= k < (head + rest).len() && (head + rest)[k] == colon();
            if k < head.len() {
                assert(head[k] == colon());
            } else {
                assert(rest[k - head.len()] == colon());
                let j = choose|j: int| 0 <= j < chars.drop_first().len() && chars.drop_first()[j] == ':';
                assert(chars[j + 1] == ':');
            }
        }
        if chars.contains(':') {
            let j = choose|j: int| 0 <= j < chars.len() && chars[j] == ':';
            if j == 0 {
                let k = choose|k: int| 0 <= k < head.len() && head[k] == colon();
                assert((head + rest)[k] == colon());
            } else {
                assert(chars.drop_first()[j - 1] == ':');
                let k = choose|k: int| 0 <= k < rest.len() && rest[k] == colon();
                assert((head + rest)[k + head.len()] == colon());
            }
        }
    }
}

/// Splitting decoded credentials at the first `':'` gives back the user
/// name and password that were joined: a user name holds no `':'`, a
/// password may.
pub proof fn law_split_credentials_round_trip(username: Seq<char>, password: Seq<char>)
    requires
        !username.contains(':'),
    ensures
        spec_split_credentials(encode_utf8(username + seq![':'] + password)) == Ok::<_, AuthError>((username, password)),
{
    let joined = username + seq![':'] + password;
    lemma_encode_utf8_concat(username + seq![':'], password);
    lemma_encode_utf8_concat(username, seq![':']);
    let u = encode_utf8(username);
    let p = encode_utf8(password);
    let colon_bytes = encode_utf8(seq![':']);
    assert(seq![':'].drop_first() =~= Seq::<char>::empty());
    lemma_encode_scalar_colon(':');
    assert((':' as u32) == 58);
    assert(encode_scalar(58u32) =~= seq![58u8]);
    assert(seq![':'][0] == ':');
    assert(encode_utf8(Seq::<char>::empty()) =~= Seq::<u8>::empty());
    assert(colon_bytes == encode_scalar(58u32) + encode_utf8(Seq::<char>::empty()));
    assert(colon_bytes =~= seq![58u8]);
    let d = encode_utf8(joined);
    assert(d == u + seq![58u8] + p);
    encode_utf8_valid_utf8(joined);
    lemma_encode_utf8_colon(username);
    d.index_of_first_ensures(colon());
    assert(d[u.len() as int] == colon());
    assert(d.contains(colon()));
    let i = d.index_of_first(colon()).unwrap();
    if i < u.len() {
        assert(u[i] == colon());
        assert(u.contains(colon()));
    }
    assert(i == u.len());
    assert(d.subrange(0, i) =~= u);
    assert(d.subrange(i + 1, d.len() as int) =~= p);
    encode_utf8_decode_utf8(username);
    encode_utf8_decode_utf8(password);
}

/// What a client sends as Basic credentials is what the request is read to
/// carry: where the first `authorization` field holds `"Basic "` followed by
/// visible base64 text that decodes to `user:password` in UTF-8, with no
/// `':'` in the user name, `basic_auth` reads that user name and password.
pub proof fn law_basic_credentials_round_trip(
    fields: Seq<HeaderField>,
    encoded: Seq<u8>,
    username: Seq<char>,
    password: Seq<char>,
)
    requires
        first_authorization_value(fields) == Some(basic_scheme_prefix() + encoded),
        all_visible_ascii(encoded),
        base64_standard_decode(encoded) == Some(encode_utf8(username + seq![':'] + password)),
        !username.contains(':'),
    ensures
        spec_basic_auth(fields) == Ok::<_, AuthError>((username, password)),
{
    let value = basic_scheme_prefix() + encoded;
    assert(value.subrange(0, 6) =~= basic_scheme_prefix());
    assert(value.subrange(6, value.len() as int) =~= encoded);
    assert forall|i: int| 0 <= i < value.len() implies is_visible_ascii(
        #[trigger] value[i],
    ) by {
        if i >= 6 {
            assert(value[i] == encoded[i - 6]);
        }
    }
    law_split_credentials_round_trip(username, password);
}

/// An authorized publication from start to end: the user named in the
/// request's Basic credentials is looked up; where the stored hash admits
/// the password, the confirmed subscribers are loaded, the issue goes to each
/// of them in order, and, all deliveries succeeding, the request is answered
/// `200`.
pub proof fn law_authorized_publication(
    fields: Seq<HeaderField>,
    issue: IssueView,
    user_id: u128,
    password_hash: Seq<char>,
    rows: Seq<Result<Seq<char>, Seq<char>>>,
)
    requires
        spec_basic_auth(fields) is Ok,
        spec_verify_password_hash(password_hash, spec_basic_auth(fields)->Ok_0.1) is Ok,
    ensures
        ({
            let (username, password) = spec_basic_auth(fields)->Ok_0;
            let (state, action) = spec_publish_start(fields, issue);
            let subscribers = spec_confirmed_subscribers(rows);
            &&& action == PublishActionView::FetchStoredCredentials { username }
            &&& spec_publish_run(
                state,
                seq![
                    PublishEventView::StoredCredentials(
                        StoredCredentialsView::Found { user_id, password_hash },
                    ),
                    PublishEventView::ConfirmedSubscribers(rows),
                ] + deliveries_succeed(subscribers.len()),
            ) == (
                PublishStateView::Finished,
                seq![PublishActionView::FetchConfirmedSubscribers { user_id }] + sends(
                    issue,
                    subscribers,
                    0,
                    subscribers.len(),
                ).push(PublishActionView::Respond(ResponseStatus::Success)),
            )
        }),
{
    let (username, password) = spec_basic_auth(fields)->Ok_0;
    let (state, action) = spec_publish_start(fields, issue);
    let subscribers = spec_confirmed_subscribers(rows);
    let stored = PublishEventView::StoredCredentials(StoredCredentialsView::Found { user_id, password_hash });
    let later = seq![PublishEventView::ConfirmedSubscribers(rows)] + deliveries_succeed(subscribers.len());
    let events = seq![stored, PublishEventView::ConfirmedSubscribers(rows)] + deliveries_succeed(
        subscribers.len(),
    );
    assert(events[0] == stored);
    assert(events.drop_first() =~= later);
    let after = spec_publish_step(state, events[0]);
    assert(after == (
        PublishStateView::AwaitingSubscribers { user_id, issue },
        PublishActionView::FetchConfirmedSubscribers { user_id },
    ));
    let tail = spec_publish_run(after.0, events.drop_first());
    assert(spec_publish_run(state, events) == (tail.0, seq![after.1] + tail.1));
    law_issue_reaches_every_confirmed_subscriber(user_id, issue, rows);
}

/// Whether an action delivers the issue or answers the request `200`.
pub open spec fn grants(action: PublishActionView) -> bool {
    action is SendIssue || action == PublishActionView::Respond(ResponseStatus::Success)
}

/// The addresses that the actions deliver the issue to, in order.
pub open spec fn recipients(actions: Seq<PublishActionView>) -> Seq<Seq<char>>
    decreases actions.len(),
{
    if actions.len() == 0 {
        Seq::empty()
    } else {
        let rest = recipients(actions.drop_first());
        match actions[0] {
            PublishActionView::SendIssue { recipient, .. } => seq![recipient] + rest,
            _ => rest,
        }
    }
}

/// The valid addresses among the rows that the first event reports, or none
/// where it reports no rows.
pub open spec fn subscribers_reported(events: Seq<PublishEventView>) -> Seq<Seq<char>> {
    if events.len() > 0 && events[0] is ConfirmedSubscribers {
        spec_confirmed_subscribers(events[0]->ConfirmedSubscribers_0)
    } else {
        Seq::empty()
    }
}

proof fn lemma_run_unfold(state: PublishStateView, events: Seq<PublishEventView>)
    requires
        events.len() > 0,
    ensures
        ({
            let after = spec_publish_step(state, events[0]);
            let tail = spec_publish_run(after.0, events.drop_first());
            &&& spec_publish_run(state, events) == (tail.0, seq![after.1] + tail.1)
            &&& recipients(seq![after.1] + tail.1) == match after.1 {
                PublishActionView::SendIssue { recipient, .. } => seq![recipient] + recipients(tail.1),
                _ => recipients(tail.1),
            }
        }),
{
    let after = spec_publish_step(state, events[0]);
    let tail = spec_publish_run(after.0, events.drop_first());
    assert((seq![after.1] + tail.1).drop_first() =~= tail.1);
}

/// A finished publication asks for nothing more: whatever is reported, it
/// stays finished and only answers `500`.
proof fn lemma_finished_run(events: Seq<PublishEventView>)
    ensures
        spec_publish_run(PublishStateView::Finished, events) == (
            PublishStateView::Finished,
            Seq::new(events.len(), |k: int| PublishActionView::Respond(ResponseStatus::InternalServerError)),
        ),
        recipients(spec_publish_run(PublishStateView::Finished, events).1) == Seq::<Seq<char>>::empty(),
    decreases events.len(),
{
    let fail = Seq::new(events.len(), |k: int| PublishActionView::Respond(ResponseStatus::InternalServerError));
    if events.len() == 0 {
        assert(fail =~= Seq::<PublishActionView>::empty());
    } else {
        lemma_run_unfold(PublishStateView::Finished, events);
        lemma_finished_run(events.drop_first());
        let rest = Seq::new((events.len() - 1) as nat, |k: int| PublishActionView::Respond(ResponseStatus::InternalServerError));
        assert(seq![PublishActionView::Respond(ResponseStatus::InternalServerError)] + rest =~= fail);
    }
}

proof fn lemma_finished_grants_nothing(events: Seq<PublishEventView>)
    ensures
        forall|k: int| 0 <= k < spec_publish_run(PublishStateView::Finished, events).1.len()
            ==> !grants(#[trigger] spec_publish_run(PublishStateView::Finished, events).1[k]),
{
    lemma_finished_run(events);
}

proof fn lemma_delivering_recipients(issue: IssueView, subscribers: Seq<Seq<char>>, next: int, events: Seq<PublishEventView>)
    requires
        0 <= next < subscribers.len(),
    ensures
        ({
            let r = recipients(spec_publish_run(PublishStateView::Delivering { issue, subscribers, next }, events).1);
            next + 1 + r.len() <= subscribers.len() && r == subscribers.subrange(next + 1, next + 1 + r.len())
        }),
    decreases events.len(),
{
    let state = PublishStateView::Delivering { issue, subscribers, next };
    let r = recipients(spec_publish_run(state, events).1);
    if events.len() == 0 {
        assert(r =~= subscribers.subrange(next + 1, next + 1 + r.len()));
    } else {
        lemma_run_unfold(state, events);
        let after = spec_publish_step(state, events[0]);
        if after.0 is Finished {
            lemma_finished_run(events.drop_first());
            assert(!(after.1 is SendIssue));
            assert(r =~= subscribers.subrange(next + 1, next + 1 + r.len()));
        } else {
            assert(after.0 == PublishStateView::Delivering { issue, subscribers, next: next + 1 });
            lemma_delivering_recipients(issue, subscribers, next + 1, events.drop_first());
            let rest = recipients(spec_publish_run(after.0, events.drop_first()).1);
            assert(r == seq![subscribers[next + 1]] + rest);
            assert(r =~= subscribers.subrange(next + 1, next + 1 + r.len()));
        }
    }
}

proof fn lemma_awaiting_subscribers_recipients(user_id: u128, issue: IssueView, events: Seq<PublishEventView>)
    ensures
        ({
            let r = recipients(spec_publish_run(PublishStateView::AwaitingSubscribers { user_id, issue }, events).1);
            r.len() <= subscribers_reported(events).len() && r == subscribers_reported(events).subrange(0, r.len() as int)
        }),
{
    let state = PublishStateView::AwaitingSubscribers { user_id, issue };
    let r = recipients(spec_publish_run(state, events).1);
    let subscribers = subscribers_reported(events);
    if events.len() == 0 {
        assert(r =~= subscribers.subrange(0, r.len() as int));
    } else {
        lemma_run_unfold(state, events);
        let after = spec_publish_step(state, events[0]);
        if after.0 is Finished {
            lemma_finished_run(events.drop_first());
            assert(!(after.1 is SendIssue));
            assert(r =~= subscribers.subrange(0, r.len() as int));
        } else {
            assert(events[0] is ConfirmedSubscribers);
            assert(after.0 == PublishStateView::Delivering { issue, subscribers, next: 0 });
            lemma_delivering_recipients(issue, subscribers, 0, events.drop_first());
            let rest = recipients(spec_publish_run(after.0, events.drop_first()).1);
            assert(r == seq![subscribers[0]] + rest);
            assert(r =~= subscribers.subrange(0, r.len() as int));
        }
    }
}

/// Over any run of a publication, whatever the outside world reports: the
/// issue is delivered only to the valid addresses among the confirmed
/// subscriber rows reported once the credentials were admitted, in their
/// order, each row at most once (the addresses delivered to are a prefix of
/// those valid addresses).
pub proof fn law_recipients_are_reported_subscribers_once(
    fields: Seq<HeaderField>,
    issue: IssueView,
    events: Seq<PublishEventView>,
)
    ensures
        ({
            let (state, action) = spec_publish_start(fields, issue);
            let subscribers = subscribers_reported(events.drop_first());
            let r = recipients(seq![action] + spec_publish_run(state, events).1);
            r.len() <= subscribers.len() && r == subscribers.subrange(0, r.len() as int)
        }),
{
    let (state, action) = spec_publish_start(fields, issue);
    let actions = spec_publish_run(state, events).1;
    let subscribers = subscribers_reported(events.drop_first());
    assert((seq![action] + actions).drop_first() =~= actions);
    assert(!(action is SendIssue));
    let r = recipients(seq![action] + actions);
    assert(r == recipients(actions));
    if state is Finished || events.len() == 0 {
        if state is Finished {
            lemma_finished_run(events);
        }
        assert(r =~= subscribers.subrange(0, r.len() as int));
    } else {
        lemma_run_unfold(state, events);
        let after = spec_publish_step(state, events[0]);
        if after.0 is Finished {
            lemma_finished_run(events.drop_first());
            assert(r =~= subscribers.subrange(0, r.len() as int));
        } else {
            let user_id = after.0->AwaitingSubscribers_user_id;
            assert(after.0 == PublishStateView::AwaitingSubscribers { user_id, issue });
            assert(!(after.1 is SendIssue));
            lemma_awaiting_subscribers_recipients(user_id, issue, events.drop_first());
        }
    }
}

/// Over any run of a publication, whatever the outside world reports: no
/// issue is delivered and no `200` is answered unless the request carries
/// Basic credentials and the first report admits them, that is, the user
/// was found and the password matches the stored hash.
pub proof fn law_nothing_granted_without_admitted_credentials(
    fields: Seq<HeaderField>,
    issue: IssueView,
    events: Seq<PublishEventView>,
    k: int,
)
    requires
        ({
            let (state, action) = spec_publish_start(fields, issue);
            let actions = seq![action] + spec_publish_run(state, events).1;
            0 <= k < actions.len() && grants(actions[k])
        }),
    ensures
        spec_basic_auth(fields) is Ok,
        events.len() > 0,
        events[0] is StoredCredentials,
        spec_validate_credentials(
            events[0]->StoredCredentials_0,
            spec_basic_auth(fields)->Ok_0.1,
        ) is Ok,
{
    let (state, action) = spec_publish_start(fields, issue);
    let actions = spec_publish_run(state, events).1;
    assert(!grants(action));
    assert((seq![action] + actions)[k] == actions[k - 1]);
    if state is Finished {
        lemma_finished_grants_nothing(events);
        assert(!grants(actions[k - 1]));
    }
    assert(events.len() > 0);
    lemma_run_unfold(state, events);
    let after = spec_publish_step(state, events[0]);
    let tail = spec_publish_run(after.0, events.drop_first()).1;
    if after.0 is Finished {
        lemma_finished_grants_nothing(events.drop_first());
        assert(!grants(after.1));
        if k - 1 > 0 {
            assert(actions[k - 1] == tail[k - 2]);
        }
        assert(false);
    }
}

/// Whether a subscriber row's address was accepted.
pub open spec fn row_is_valid(row: Result<Seq<char>, Seq<char>>) -> bool {
    row is Ok
}

/// The address of an accepted row.
pub open spec fn row_address(row: Result<Seq<char>, Seq<char>>) -> Seq<char> {
    row->Ok_0
}

/// The confirmed subscribers are exactly the rows whose address was
/// accepted, in the order of the rows: every accepted row is kept, however
/// many there are, and no rejected row is.
pub proof fn law_confirmed_subscribers_are_the_valid_rows(rows: Seq<Result<Seq<char>, Seq<char>>>)
    ensures
        spec_confirmed_subscribers(rows) == rows.filter(|r: Result<Seq<char>, Seq<char>>| row_is_valid(r)).map_values(
            |r: Result<Seq<char>, Seq<char>>| row_address(r),
        ),
    decreases rows.len(),
{
    let valid = |r: Result<Seq<char>, Seq<char>>| row_is_valid(r);
    let address = |r: Result<Seq<char>, Seq<char>>| row_address(r);
    reveal_with_fuel(Seq::<Result<Seq<char>, Seq<char>>>::filter, 1);
    if rows.len() == 0 {
        assert(rows.filter(valid).map_values(address) =~= Seq::<Seq<char>>::empty());
    } else {
        law_confirmed_subscribers_are_the_valid_rows(rows.drop_last());
        let before = rows.drop_last().filter(valid);
        if rows.last() is Ok {
            assert(rows.filter(valid) == before.push(rows.last()));
            assert(before.push(rows.last()).map_values(address) =~= before.map_values(address).push(
                rows.last()->Ok_0,
            ));
        } else {
            assert(rows.filter(valid) == before);
        }
    }
}

/// Where every row's address was accepted, every row's address is a
/// confirmed subscriber, in order.
pub proof fn law_all_valid_rows_are_all_kept(rows: Seq<Result<Seq<char>, Seq<char>>>)
    requires
        forall|i: int| 0 <= i < rows.len() ==> (#[trigger] rows[i]) is Ok,
    ensures
        spec_confirmed_subscribers(rows).len() == rows.len(),
        forall|i: int| 0 <= i < rows.len() ==> spec_confirmed_subscribers(rows)[i] == (#[trigger] rows[i])->Ok_0,
    decreases rows.len(),
{
    if rows.len() > 0 {
        law_all_valid_rows_are_all_kept(rows.drop_last());
        let kept = spec_confirmed_subscribers(rows.drop_last());
        assert(rows.last() is Ok);
        assert(spec_confirmed_subscribers(rows) == kept.push(rows.last()->Ok_0));
        assert forall|i: int| 0 <= i < rows.len() implies spec_confirmed_subscribers(rows)[i] == (
        #[trigger] rows[i])->Ok_0 by {
            if i < rows.len() - 1 {
                assert(rows.drop_last()[i] == rows[i]);
            }
        }
    }
}

/// The bytes a header value may hold and still be read as text are exactly
/// the tab and the visible ASCII characters from space to `~`.
pub proof fn law_header_text_bytes(b: u8)
    ensures
        is_visible_ascii(b) <==> (b == 9 || (32 <= b && b <= 126)),
{
}

/// Every byte of the standard base64 alphabet (`A-Z a-z 0-9 + / =`) can
/// stand in a header value read as text.
pub proof fn law_base64_alphabet_is_header_text(b: u8)
    requires
        (65 <= b && b <= 90) || (97 <= b && b <= 122) || (48 <= b && b <= 57) || b == 43 || b == 47
            || b == 61,
    ensures
        is_visible_ascii(b),
{
}

/// The value of the `authorization` field is found wherever the field
/// stands: it is the value of the first field with that name, and there is
/// none only when no field has that name.
pub proof fn law_authorization_found_anywhere(fields: Seq<HeaderField>, k: int)
    requires
        0 <= k < fields.len(),
        fields[k].name@ == authorization_name(),
        forall|j: int| 0 <= j < k ==> (#[trigger] fields[j]).name@ != authorization_name(),
    ensures
        first_authorization_value(fields) == Some(fields[k].value@),
    decreases k,
{
    if k > 0 {
        assert forall|j: int| 0 <= j < k - 1 implies (#[trigger] fields.drop_first()[j]).name@
            != authorization_name() by {
            assert(fields.drop_first()[j] == fields[j + 1]);
        }
        assert(fields[0].name@ != authorization_name());
        law_authorization_found_anywhere(fields.drop_first(), k - 1);
    }
}

/// Without a field named `authorization` there is no value to read.
pub proof fn law_authorization_absent(fields: Seq<HeaderField>)
    requires
        forall|j: int| 0 <= j < fields.len() ==> (#[trigger] fields[j]).name@ != authorization_name(),
    ensures
        first_authorization_value(fields) is None,
    decreases fields.len(),
{
    if fields.len() > 0 {
        assert(fields[0].name@ != authorization_name());
        assert forall|j: int| 0 <= j < fields.len() - 1 implies (#[trigger] fields.drop_first()[j]).name@
            != authorization_name() by {
            assert(fields.drop_first()[j] == fields[j + 1]);
        }
        law_authorization_absent(fields.drop_first());
    }
}

/// A password is accepted against a well-formed stored hash exactly when
/// Argon2 accepts its UTF-8 bytes against that hash; every other password
/// is refused as invalid, and a malformed hash refuses every password.
pub proof fn law_password_accepted_iff_argon2_accepts(expected_password_hash: Seq<char>, password_candidate: Seq<char>)
    ensures
        phc_string_is_well_formed(expected_password_hash) ==> (spec_verify_password_hash(
            expected_password_hash,
            password_candidate,
        ) is Ok <==> argon2_accepts(expected_password_hash, encode_utf8(password_candidate))),
        phc_string_is_well_formed(expected_password_hash) && !argon2_accepts(
            expected_password_hash,
            encode_utf8(password_candidate),
        ) ==> spec_verify_password_hash(expected_password_hash, password_candidate) == Err::<(), _>(
            CredentialError::InvalidPassword,
        ),
        !phc_string_is_well_formed(expected_password_hash) ==> spec_verify_password_hash(
            expected_password_hash,
            password_candidate,
        ) == Err::<(), _>(CredentialError::MalformedHash),
{
}

/// A found user is admitted, with the user's own id, exactly when the
/// password is accepted against the user's stored hash; otherwise the
/// refusal carries the reason the password check gives.
pub proof fn law_found_user_admitted_iff_password_verifies(
    user_id: u128,
    password_hash: Seq<char>,
    password: Seq<char>,
)
    ensures
        ({
            let found = StoredCredentialsView::Found { user_id, password_hash };
            &&& spec_validate_credentials(found, password) is Ok <==> spec_verify_password_hash(
                password_hash,
                password,
            ) is Ok
            &&& spec_validate_credentials(found, password) is Ok ==> spec_validate_credentials(found, password)
                == Ok::<_, CredentialError>(user_id)
            &&& spec_verify_password_hash(password_hash, password) matches Err(e)
                ==> spec_validate_credentials(found, password) == Err::<u128, _>(e)
        }),
{
}

/// A subscription is answered `200` exactly when its fields were accepted
/// and the subscriber was saved, and `400` exactly when its fields were not
/// accepted.
pub proof fn law_subscription_answers(fields_accepted: bool, saved: bool)
    ensures
        (spec_subscribe_response(fields_accepted, saved).spec_code() == 200) <==> (fields_accepted && saved),
        (spec_subscribe_response(fields_accepted, saved).spec_code() == 400) <==> !fields_accepted,
        (spec_subscribe_response(fields_accepted, saved).spec_code() == 500) <==> (fields_accepted && !saved),
{
}

/// Whether a byte is one of the standard base64 alphabet (`A-Z a-z 0-9 +
/// /`) or its padding `=`.
pub open spec fn is_base64_text_byte(b: u8) -> bool {
    (65 <= b && b <= 90) || (97 <= b && b <= 122) || (48 <= b && b <= 57) || b == 43 || b == 47
        || b == 61
}

/// The round trip of Basic credentials for any base64 text: where the first
/// `authorization` field holds `"Basic "` followed by base64 text that
/// decodes to `user:password` in UTF-8, with no `':'` in the user name, that
/// user name and password are read.
pub proof fn law_basic_credentials_round_trip_from_base64_text(
    fields: Seq<HeaderField>,
    encoded: Seq<u8>,
    username: Seq<char>,
    password: Seq<char>,
)
    requires
        first_authorization_value(fields) == Some(basic_scheme_prefix() + encoded),
        forall|i: int| 0 <= i < encoded.len() ==> is_base64_text_byte(#[trigger] encoded[i]),
        base64_standard_decode(encoded) == Some(encode_utf8(username + seq![':'] + password)),
        !username.contains(':'),
    ensures
        spec_basic_auth(fields) == Ok::<_, AuthError>((username, password)),
{
    assert forall|i: int| 0 <= i < encoded.len() implies is_visible_ascii(#[trigger] encoded[i]) by {
        law_base64_alphabet_is_header_text(encoded[i]);
    }
    law_basic_credentials_round_trip(fields, encoded, username, password);
}

/// The fixed texts of Basic authentication: the field is named
/// `authorization`, its value starts with `"Basic "`, and user name and
/// password are separated by `':'`, each in its ASCII bytes.
pub proof fn law_basic_scheme_texts()
    ensures
        authorization_name() == seq![
            'a' as u8, 'u' as u8, 't' as u8, 'h' as u8, 'o' as u8, 'r' as u8, 'i' as u8, 'z' as u8,
            'a' as u8, 't' as u8, 'i' as u8, 'o' as u8, 'n' as u8,
        ],
        basic_scheme_prefix() == seq!['B' as u8, 'a' as u8, 's' as u8, 'i' as u8, 'c' as u8, ' ' as u8],
        colon() == ':' as u8,
{
    assert(authorization_name() =~= seq![
        'a' as u8, 'u' as u8, 't' as u8, 'h' as u8, 'o' as u8, 'r' as u8, 'i' as u8, 'z' as u8,
        'a' as u8, 't' as u8, 'i' as u8, 'o' as u8, 'n' as u8,
    ]);
    assert(basic_scheme_prefix() =~= seq!['B' as u8, 'a' as u8, 's' as u8, 'i' as u8, 'c' as u8, ' ' as u8]);
}

/// Why a request's credentials are refused, in terms of the header alone:
/// no `authorization` field; a byte that is not header text; no `"Basic "`
/// scheme; text after it that is not base64; decoded bytes that are not
/// UTF-8; or decoded credentials without a `':'`.
pub proof fn law_basic_auth_refusals(fields: Seq<HeaderField>)
    ensures
        first_authorization_value(fields) is None ==> spec_basic_auth(fields) == Err::<(Seq<char>, Seq<char>), _>(
            AuthError::MissingHeader,
        ),
        first_authorization_value(fields) matches Some(v) ==> {
            let rest = v.subrange(6, v.len() as int);
            let d = base64_standard_decode(rest)->0;
            &&& (exists|i: int| 0 <= i < v.len() && !is_visible_ascii(#[trigger] v[i]))
                ==> spec_basic_auth(fields) == Err::<(Seq<char>, Seq<char>), _>(AuthError::NotVisibleAscii)
            &&& (all_visible_ascii(v) && !(v.len() >= 6 && v.subrange(0, 6) == basic_scheme_prefix()))
                ==> spec_basic_auth(fields) == Err::<(Seq<char>, Seq<char>), _>(AuthError::NotBasicScheme)
            &&& (all_visible_ascii(v) && v.len() >= 6 && v.subrange(0, 6) == basic_scheme_prefix()
                && base64_standard_decode(rest) is None) ==> spec_basic_auth(fields) == Err::<
                (Seq<char>, Seq<char>),
                _,
            >(AuthError::NotBase64)
            &&& (all_visible_ascii(v) && v.len() >= 6 && v.subrange(0, 6) == basic_scheme_prefix()
                && base64_standard_decode(rest) is Some && !vstd::utf8::valid_utf8(d))
                ==> spec_basic_auth(fields) == Err::<(Seq<char>, Seq<char>), _>(AuthError::NotUtf8)
            &&& (all_visible_ascii(v) && v.len() >= 6 && v.subrange(0, 6) == basic_scheme_prefix()
                && base64_standard_decode(rest) is Some && vstd::utf8::valid_utf8(d) && !d.contains(
                ':' as u8,
            )) ==> spec_basic_auth(fields) == Err::<(Seq<char>, Seq<char>), _>(AuthError::MissingPassword)
        },
{
    if let Some(v) = first_authorization_value(fields) {
        let rest = v.subrange(6, v.len() as int);
        if all_visible_ascii(v) && v.len() >= 6 && v.subrange(0, 6) == basic_scheme_prefix() {
            if let Some(d) = base64_standard_decode(rest) {
                d.index_of_first_ensures(colon());
            }
        }
    }
}

/// The numeric codes of the answers.
pub proof fn law_status_codes()
    ensures
        ResponseStatus::Success.spec_code() == 200,
        ResponseStatus::BadRequest.spec_code() == 400,
        ResponseStatus::Unauthorized.spec_code() == 401,
        ResponseStatus::InternalServerError.spec_code() == 500,
{
}

/// The rows handed in are seen one for one: an accepted row as its address,
/// a rejected row as its reason.
pub proof fn law_rows_are_seen_one_for_one(rows: Seq<Result<String, String>>)
    ensures
        rows_view(rows).len() == rows.len(),
        forall|i: int| 0 <= i < rows.len() ==> (#[trigger] rows_view(rows)[i] is Ok <==> rows[i] is Ok),
        forall|i: int| 0 <= i < rows.len() && rows[i] is Ok ==> (#[trigger] rows_view(rows)[i])->Ok_0
            == rows[i]->Ok_0@,
{
}

/// The subscribers are seen one for one by their addresses, in order.
pub proof fn law_subscribers_are_seen_by_address(subscribers: Seq<ConfirmedSubscriber>)
    ensures
        subscriber_emails(subscribers).len() == subscribers.len(),
        forall|i: int| 0 <= i < subscribers.len() ==> #[trigger] subscriber_emails(subscribers)[i]
            == subscribers[i].email@,
{
}

} // verus!
