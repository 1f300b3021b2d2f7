use newsletter::routes::health_check::health_check;
use newsletter::routes::subscriptions::subscribe_response;
use newsletter::routes::subscriptions_confirm::confirm;
use newsletter::status::ResponseStatus;

#[test]
fn health_check_test() {
    let (status, body) = health_check();
    assert_eq!(status, ResponseStatus::Success);
    assert_eq!(status.code(), 200);
    assert_eq!(body, "everything is fine, boss 👍");
}

#[test]
fn confirm_answers_200() {
    let (status, body) = confirm();
    assert_eq!(status.code(), 200);
    assert_eq!(body, "everything is fine, boss 👍");
}

#[test]
fn status_codes() {
    assert_eq!(ResponseStatus::Success.code(), 200);
    assert_eq!(ResponseStatus::BadRequest.code(), 400);
    assert_eq!(ResponseStatus::Unauthorized.code(), 401);
    assert_eq!(ResponseStatus::InternalServerError.code(), 500);
}

#[test]
fn saved_subscription_answers_200() {
    assert_eq!(subscribe_response(true, true).code(), 200);
}

#[test]
fn rejected_fields_answer_400() {
    // empty name, empty email, invalid email: whatever saving would do
    assert_eq!(subscribe_response(false, true).code(), 400);
    assert_eq!(subscribe_response(false, false).code(), 400);
}

#[test]
fn failed_save_answers_500() {
    assert_eq!(subscribe_response(true, false).code(), 500);
}
