//! What a request is answered that the service does not carry out.

use vstd::prelude::*;

verus! {

/// An answer other than success: the HTTP status, and the message in the body.
#[derive(Debug)]
pub struct ApiError(pub u16, pub String);

impl View for ApiError {
    type V = (u16, Seq<char>);

    open spec fn view(&self) -> (u16, Seq<char>) {
        (self.0, self.1@)
    }
}

impl ApiError {
    /// The request does not follow the protocol.
    pub fn bad(message: String) -> (r: ApiError)
        ensures
            r@ == (400u16, message@),
            r.0 == 400 && r.1@ == message@,
    {
        ApiError(400, message)
    }

    /// The service failed.
    pub fn internal(message: String) -> (r: ApiError)
        ensures
            r@ == (500u16, message@),
            r.0 == 500 && r.1@ == message@,
    {
        ApiError(500, message)
    }
}

} // verus!
