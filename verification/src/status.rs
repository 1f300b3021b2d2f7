use vstd::prelude::*;

verus! {

/// The HTTP status with which a request is answered.
#[derive(Clone, Copy, Debug, PartialEq, Eq, Structural)]
pub enum ResponseStatus {
    Success,
    BadRequest,
    Unauthorized,
    InternalServerError,
}

impl ResponseStatus {
    /// The numeric HTTP status code.
    pub open spec fn spec_code(self) -> u16 {
        match self {
            ResponseStatus::Success => 200,
            ResponseStatus::BadRequest => 400,
            ResponseStatus::Unauthorized => 401,
            ResponseStatus::InternalServerError => 500,
        }
    }

    pub fn code(&self) -> (code: u16)
        ensures
            code == self.spec_code(),
    {
        match self {
            ResponseStatus::Success => 200,
            ResponseStatus::BadRequest => 400,
            ResponseStatus::Unauthorized => 401,
            ResponseStatus::InternalServerError => 500,
        }
    }
}

} // verus!
