//! The user service: lookup and the paginated listing, shaped into response
//! envelopes.

use vstd::prelude::*;

use crate::models::user::User;
use crate::repo::ApiError;
use crate::repo::users::UserRepository;
use crate::repo::users::page_slice;
use crate::store::GraphStore;
use crate::store::has_user;
use crate::store::wf;
use crate::utils::api_response::ApiResponse;
use crate::utils::api_response::PaginatedItemsResponse;
use crate::utils::pagination::PaginatedResponse;
use crate::utils::pagination::PaginationParams;
use crate::utils::pagination::spec_pages;

verus! {

/// The parameters a listing runs with: the given ones, or the first page of
/// ten.
pub open spec fn effective_params(pagination: Option<PaginationParams>) -> PaginationParams {
    match pagination {
        Some(p) => p,
        None => PaginationParams { page: 1, limit: 10 },
    }
}

/// User use cases over the shared store.
pub struct UserService {}

impl UserService {
    /// One user by name: the user with status 200, or a 404 message.
    pub fn get_one(store: &GraphStore, user_name: &str) -> (r: ApiResponse<User>)
        ensures
            match r {
                ApiResponse::Success { data, message, status } => has_user(store@, user_name@)
                    && data@ == user_name@ && status == 200 && message@ == "User found"@,
                ApiResponse::MessageOnly { message, status } => !has_user(store@, user_name@)
                    && status == 404 && message@ == "User not found with user name: "@
                    + user_name@,
                _ => false,
            },
    {
        match UserRepository::find_one(store, user_name) {
            Ok(user) => ApiResponse::success(user, "User found"),
            Err(e) => {
                let status = e.status();
                ApiResponse::message_only(e.message(), status)
            },
        }
    }

    /// One page of users ordered by name, with the total from the same read.
    pub fn get_all(store: &GraphStore, pagination: Option<PaginationParams>) -> (r:
        PaginatedItemsResponse<User>)
        requires
            wf(store@),
            store@.users.len() <= u32::MAX,
            match pagination {
                Some(p) => p.page >= 1 && p.limit >= 1,
                None => true,
            },
        ensures
            match r {
                ApiResponse::Paginated { data, message, status } => {
                    let params = effective_params(pagination);
                    &&& data.items.deep_view() == page_slice(
                        store@.users,
                        params.page as int,
                        params.limit as int,
                    )
                    &&& data.total == store@.users.len()
                    &&& data.page == params.page
                    &&& data.limit == params.limit
                    &&& data.pages as int == spec_pages(
                        store@.users.len() as int,
                        params.limit as int,
                    )
                    &&& status == 200
                    &&& message@ == "Users retrieved successfully"@
                },
                _ => false,
            },
    {
        let params = match pagination {
            Some(p) => p,
            None => PaginationParams::default(),
        };
        match UserRepository::find_all(store, params.page, params.limit) {
            Ok((users, total)) => {
                let paginated = PaginatedResponse::new(users, total, &params);
                ApiResponse::paginated(paginated, "Users retrieved successfully")
            },
            Err(e) => {
                let status = e.status();
                ApiResponse::message_only(e.message(), status)
            },
        }
    }
}

} // verus!
