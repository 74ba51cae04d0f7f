//! The payloads of the catch-all error responses: what a client is told when
//! a request fails outside any handler.  The HTTP wiring that serves these
//! lives outside the library; the payload text and status are fixed here.

use vstd::prelude::*;

use crate::strutil::dec_rep;
use crate::strutil::u16_to_string;

verus! {

/// The body of a catch-all error response.
#[derive(Debug)]
pub struct ErrorResponse {
    pub status: u16,
    pub message: String,
}

/// The payload for a request that matched no resource.
pub fn not_found(uri: &str) -> (r: ErrorResponse)
    ensures
        r.status == 404,
        r.message@ == "Resource '"@ + uri@ + "' not found"@,
{
    let message = "Resource '".to_owned().concat(uri).concat("' not found");
    ErrorResponse { status: 404, message }
}

/// The payload for a failure the service cannot attribute.
pub fn internal_error() -> (r: ErrorResponse)
    ensures
        r.status == 500,
        r.message@ == "Internal server error occurred"@,
{
    ErrorResponse { status: 500, message: "Internal server error occurred".to_owned() }
}

/// The payload for any other failing status.
pub fn default_catcher(status: u16, uri: &str) -> (r: ErrorResponse)
    ensures
        r.status == status,
        r.message@ == "Request to '"@ + uri@ + "' failed with status: "@ + dec_rep(status as nat),
{
    let n = u16_to_string(status);
    let message = "Request to '".to_owned().concat(uri).concat("' failed with status: ").concat(
        n.as_str(),
    );
    ErrorResponse { status, message }
}

} // verus!
