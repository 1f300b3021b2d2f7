use vstd::prelude::*;

use crate::routes::health_check::spec_health_body;
use crate::status::ResponseStatus;

verus! {

/// The query of a confirmation link.
pub struct Parameters {
    pub subscription_token: String,
}

/// Answers a confirmation link: `200` with the body of the health probe.
pub fn confirm() -> (response: (ResponseStatus, &'static str))
    ensures
        response.0 == ResponseStatus::Success,
        response.1@ == spec_health_body(),
{
    (ResponseStatus::Success, "everything is fine, boss 👍")
}

} // verus!
