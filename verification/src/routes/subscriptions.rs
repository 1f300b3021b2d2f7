use vstd::prelude::*;

use crate::status::ResponseStatus;

verus! {

/// The fields of a subscription form.
pub struct FormData {
    pub email: String,
    pub name: String,
}

/// The answer to a subscription form: `400` where its fields were not
/// accepted as a subscriber's name and address, else `500` where saving the
/// new subscriber failed, else `200`.
pub open spec fn spec_subscribe_response(fields_accepted: bool, saved: bool) -> ResponseStatus {
    if !fields_accepted {
        ResponseStatus::BadRequest
    } else if !saved {
        ResponseStatus::InternalServerError
    } else {
        ResponseStatus::Success
    }
}

/// Decides the answer to a subscription form from whether its fields were
/// accepted and, where they were, whether the new subscriber was saved.
pub fn subscribe_response(fields_accepted: bool, saved: bool) -> (status: ResponseStatus)
    ensures
        status == spec_subscribe_response(fields_accepted, saved),
{
    if !fields_accepted {
        ResponseStatus::BadRequest
    } else if !saved {
        ResponseStatus::InternalServerError
    } else {
        ResponseStatus::Success
    }
}

} // verus!
