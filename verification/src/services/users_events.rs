//! The registration orchestration: mutations that span a user and an event
//! proceed only when both referenced entities exist, checked here above the
//! repositories because the rule spans two aggregates.

use vstd::prelude::*;

use crate::models::event::Event;
use crate::repo::ApiError;
use crate::repo::users_events::UserEventRepository;
use crate::repo::users_events::recommendation_ok;
use crate::repo::users_events::reg_index;
use crate::services::events::EventService;
use crate::services::users::UserService;
use crate::store::GraphStore;
use crate::store::RegView;
use crate::store::has_event;
use crate::store::has_user;
use crate::store::registered;
use crate::store::wf;
use crate::strutil::dec_rep;
use crate::utils::api_response::ApiResponse;

verus! {

/// Cross-entity use cases: registration mutations and the traversals and
/// recommendations that start from a user.
pub struct UserEventService {}

impl UserEventService {
    /// Register a user to an event.  Both must exist (else a 404 message);
    /// the edge is merged, so repeating the call changes nothing.
    pub fn assign_user_to_event(store: &mut GraphStore, user_name: &str, event_id: u16) -> (r:
        ApiResponse<String>)
        requires
            wf(old(store)@),
        ensures
            wf(final(store)@),
            final(store)@.events == old(store)@.events,
            final(store)@.keywords == old(store)@.keywords,
            final(store)@.users == old(store)@.users,
            match r {
                ApiResponse::MessageOnly { message, status } => {
                    if !has_user(old(store)@, user_name@) {
                        final(store)@ == old(store)@ && status == 404 && message@
                            == "User not found with user name: "@ + user_name@
                    } else if !has_event(old(store)@, event_id) {
                        final(store)@ == old(store)@ && status == 404 && message@
                            == "No event found with ID: "@ + dec_rep(event_id as nat)
                    } else {
                        &&& status == 201
                        &&& message@ == "User has been assigned to event"@
                        &&& registered(final(store)@, user_name@, event_id)
                        &&& if registered(old(store)@, user_name@, event_id) {
                            final(store)@.regs == old(store)@.regs
                        } else {
                            final(store)@.regs == old(store)@.regs.push(
                                RegView { user: user_name@, event_id },
                            )
                        }
                    }
                },
                _ => false,
            },
    {
        match UserService::get_one(store, user_name) {
            ApiResponse::MessageOnly { message, status } => {
                return ApiResponse::message_only(message, status);
            },
            _ => {},
        }
        match EventService::get_event(store, event_id) {
            ApiResponse::MessageOnly { message, status } => {
                return ApiResponse::message_only(message, status);
            },
            _ => {},
        }
        match UserEventRepository::assign_user_to_event(store, user_name, event_id) {
            Ok(_) => ApiResponse::message_only("User has been assigned to event".to_owned(), 201),
            Err(e) => {
                let status = e.status();
                ApiResponse::message_only(e.message(), status)
            },
        }
    }

    /// Unregister a user from an event.  Both must exist (else a 404
    /// message); an absent edge is not an error.
    pub fn unassign_user_from_event(store: &mut GraphStore, user_name: &str, event_id: u16) -> (r:
        ApiResponse<String>)
        requires
            wf(old(store)@),
        ensures
            wf(final(store)@),
            final(store)@.events == old(store)@.events,
            final(store)@.keywords == old(store)@.keywords,
            final(store)@.users == old(store)@.users,
            match r {
                ApiResponse::MessageOnly { message, status } => {
                    if !has_user(old(store)@, user_name@) {
                        final(store)@ == old(store)@ && status == 404 && message@
                            == "User not found with user name: "@ + user_name@
                    } else if !has_event(old(store)@, event_id) {
                        final(store)@ == old(store)@ && status == 404 && message@
                            == "No event found with ID: "@ + dec_rep(event_id as nat)
                    } else {
                        &&& status == 200
                        &&& message@ == "User has been unassigned from event"@
                        &&& !registered(final(store)@, user_name@, event_id)
                        &&& if registered(old(store)@, user_name@, event_id) {
                            final(store)@.regs == old(store)@.regs.remove(
                                reg_index(old(store)@, user_name@, event_id),
                            )
                        } else {
                            final(store)@.regs == old(store)@.regs
                        }
                    }
                },
                _ => false,
            },
    {
        match UserService::get_one(store, user_name) {
            ApiResponse::MessageOnly { message, status } => {
                return ApiResponse::message_only(message, status);
            },
            _ => {},
        }
        match EventService::get_event(store, event_id) {
            ApiResponse::MessageOnly { message, status } => {
                return ApiResponse::message_only(message, status);
            },
            _ => {},
        }
        match UserEventRepository::unassign_user_from_event(store, user_name, event_id) {
            Ok(_) => ApiResponse::message_only(
                "User has been unassigned from event".to_owned(),
                200,
            ),
            Err(e) => {
                let status = e.status();
                ApiResponse::message_only(e.message(), status)
            },
        }
    }

    /// The events the user is registered to; the user must exist.
    pub fn find_all_events_of_user(store: &GraphStore, user_name: &str) -> (r: ApiResponse<
        Vec<Event>,
    >)
        ensures
            match r {
                ApiResponse::Success { data, message, status } => has_user(store@, user_name@)
                    && data.deep_view() == store@.events.filter(
                    |e: crate::models::event::EventView| registered(store@, user_name@, e.id),
                ) && status == 200 && message@ == "Events are ready"@,
                ApiResponse::MessageOnly { message, status } => !has_user(store@, user_name@)
                    && status == 404 && message@ == "User not found with user name: "@
                    + user_name@,
                _ => false,
            },
    {
        match UserService::get_one(store, user_name) {
            ApiResponse::MessageOnly { message, status } => {
                return ApiResponse::message_only(message, status);
            },
            _ => {},
        }
        match UserEventRepository::find_all_events_of_user(store, user_name) {
            Ok(events) => ApiResponse::success(events, "Events are ready"),
            Err(e) => {
                let status = e.status();
                ApiResponse::message_only(e.message(), status)
            },
        }
    }

    /// Recommend future events to the user by keyword similarity; the user
    /// must exist.
    pub fn recommend_events_for_user_based_on_events_similarity(
        store: &GraphStore,
        user_name: &str,
        now: &str,
    ) -> (r: ApiResponse<Vec<Event>>)
        requires
            wf(store@),
        ensures
            match r {
                ApiResponse::Success { data, message, status } => has_user(store@, user_name@)
                    && recommendation_ok(store@, user_name@, now@, data.deep_view()) && status
                    == 200 && message@ == "Events are ready"@,
                ApiResponse::MessageOnly { message, status } => !has_user(store@, user_name@)
                    && status == 404 && message@ == "User not found with user name: "@
                    + user_name@,
                _ => false,
            },
    {
        match UserService::get_one(store, user_name) {
            ApiResponse::MessageOnly { message, status } => {
                return ApiResponse::message_only(message, status);
            },
            _ => {},
        }
        match UserEventRepository::recommend_events_for_user_based_on_events_similarity(
            store,
            user_name,
            now,
        ) {
            Ok(events) => ApiResponse::success(events, "Events are ready"),
            Err(e) => {
                let status = e.status();
                ApiResponse::message_only(e.message(), status)
            },
        }
    }

    /// Whether the user is registered to the event.  The user must exist;
    /// the event's absence surfaces as the store's failure to answer.
    pub fn is_user_registered_to_event(store: &GraphStore, user_name: &str, event_id: u16) -> (r:
        ApiResponse<bool>)
        ensures
            match r {
                ApiResponse::Success { data, message, status } => has_user(store@, user_name@)
                    && has_event(store@, event_id) && data == registered(
                    store@,
                    user_name@,
                    event_id,
                ) && status == 200 && message@ == "User is registered to event"@,
                ApiResponse::MessageOnly { message, status } => (!has_user(store@, user_name@)
                    && status == 404 && message@ == "User not found with user name: "@
                    + user_name@) || (has_user(store@, user_name@) && !has_event(
                    store@,
                    event_id,
                ) && status == 500 && message@ == "Error: "@ + "No result returned from query"@),
                _ => false,
            },
    {
        match UserService::get_one(store, user_name) {
            ApiResponse::MessageOnly { message, status } => {
                return ApiResponse::message_only(message, status);
            },
            _ => {},
        }
        match UserEventRepository::is_user_registered_to_event(store, user_name, event_id) {
            Ok(is_registered) => ApiResponse::success(is_registered, "User is registered to event"),
            Err(e) => {
                let status = e.status();
                ApiResponse::message_only(e.message(), status)
            },
        }
    }
}

} // verus!
