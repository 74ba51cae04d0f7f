//! The response envelope every operation answers with: a payload or a bare
//! message, always with an HTTP-equivalent status class.

use vstd::prelude::*;

use crate::utils::pagination::PaginatedResponse;

verus! {

/// A shaped response: a payload with a message, a bare message, or one page
/// of a listing.  The status accompanies the envelope instead of being
/// serialized inside it.
#[derive(Debug)]
pub enum ApiResponse<T> {
    Success { data: T, message: String, status: u16 },
    MessageOnly { message: String, status: u16 },
    Paginated { data: PaginatedResponse<T>, message: String, status: u16 },
}

/// A paginated listing answers with the same envelope as a single payload.
pub type PaginatedItemsResponse<T> = ApiResponse<T>;

impl<T> ApiResponse<T> {
    /// A page of results, with status 200.
    pub fn paginated(data: PaginatedResponse<T>, message: &str) -> (r: Self)
        ensures
            match r {
                ApiResponse::Paginated { data: d, message: m, status } => d == data && m@
                    == message@ && status == 200,
                _ => false,
            },
    {
        Self::Paginated { data, message: message.to_owned(), status: 200 }
    }

    /// A payload with a message, with status 200.
    pub fn success(data: T, message: &str) -> (r: Self)
        ensures
            match r {
                ApiResponse::Success { data: d, message: m, status } => d == data && m@ == message@
                    && status == 200,
                _ => false,
            },
    {
        Self::Success { data, message: message.to_owned(), status: 200 }
    }

    /// A bare message with the given status.
    pub fn message_only(message: String, status: u16) -> (r: Self)
        ensures
            match r {
                ApiResponse::MessageOnly { message: m, status: s } => m == message && s == status,
                _ => false,
            },
    {
        Self::MessageOnly { message, status }
    }
}

} // verus!
