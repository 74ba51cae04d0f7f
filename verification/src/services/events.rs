//! The event service: wraps repository outcomes into response envelopes with
//! their status classes and messages.

use vstd::prelude::*;

use crate::models::event::Event;
use crate::models::event::EventUpdate;
use crate::models::event::valid_update;
use crate::models::event::validation_message;
use crate::repo::ApiError;
use crate::repo::events::EventRepoError;
use crate::repo::events::EventRepository;
use crate::models::event::EventView;
use crate::repo::events::add_ok;
use crate::repo::events::edit_ok;
use crate::repo::events::featured;
use crate::repo::events::kw_superset;
use crate::repo::events::max_id;
use crate::repo::events::remove_ok;
use crate::store::GraphStore;
use crate::store::event_at;
use crate::store::has_event;
use crate::store::wf;
use crate::strutil::dec_rep;
use crate::strutil::u16_to_string;
use crate::utils::api_response::ApiResponse;

verus! {

/// Event use cases over the shared store.
pub struct EventService {}

impl EventService {
    /// One event by id: the event with status 200, or a 404 message.
    pub fn get_event(store: &GraphStore, id: u16) -> (r: ApiResponse<Event>)
        requires
            wf(store@),
        ensures
            match r {
                ApiResponse::Success { data, message, status } => has_event(store@, id) && data@
                    == event_at(store@, id) && status == 200 && message@
                    == "Event found successfully"@,
                ApiResponse::MessageOnly { message, status } => !has_event(store@, id) && status
                    == 404 && message@ == "No event found with ID: "@ + dec_rep(id as nat),
                _ => false,
            },
    {
        match EventRepository::find_by_id(store, id) {
            Ok(event) => ApiResponse::success(event, "Event found successfully"),
            Err(EventRepoError::NotFound(_)) => {
                let n = u16_to_string(id);
                let msg = "No event found with ID: ".to_owned().concat(n.as_str());
                ApiResponse::message_only(msg, 404)
            },
            Err(e) => {
                let status = e.status();
                ApiResponse::message_only(e.message(), status)
            },
        }
    }

    /// Every event, with status 200.
    pub fn get_events(store: &GraphStore) -> (r: ApiResponse<Vec<Event>>)
        ensures
            match r {
                ApiResponse::Success { data, message, status } => data.deep_view()
                    == store@.events && status == 200 && message@ == "Events found successfully"@,
                _ => false,
            },
    {
        match EventRepository::find_all(store) {
            Ok(events) => ApiResponse::success(events, "Events found successfully"),
            Err(e) => {
                let status = e.status();
                ApiResponse::message_only(e.message(), status)
            },
        }
    }

    /// Create an event from a submission: the created event with status
    /// 200, or the rejection as a 400 message.
    pub fn add_event(store: &mut GraphStore, event: EventUpdate) -> (r: ApiResponse<Event>)
        requires
            wf(old(store)@),
        ensures
            wf(final(store)@),
            match r {
                ApiResponse::Success { data, message, status } => add_ok(
                    old(store)@,
                    final(store)@,
                    event@,
                    data@,
                ) && status == 200 && message@ == "Events successfully created"@,
                ApiResponse::MessageOnly { message, status } => final(store)@ == old(store)@
                    && status == 400 && ((!valid_update(event@) && message@ == validation_message(
                    event@,
                )) || (valid_update(event@) && max_id(old(store)@.events) == u16::MAX && message@
                    == "Error: "@ + "Can't create event"@)),
                _ => false,
            },
    {
        match EventRepository::add(store, event) {
            Ok(event) => ApiResponse::success(event, "Events successfully created"),
            Err(e) => {
                let status = e.status();
                ApiResponse::message_only(e.message(), status)
            },
        }
    }

    /// Delete an event by id: a confirmation with status 200, or a 404
    /// message when the id is absent.
    pub fn remove_event(store: &mut GraphStore, id: u16) -> (r: ApiResponse<String>)
        requires
            wf(old(store)@),
        ensures
            wf(final(store)@),
            match r {
                ApiResponse::MessageOnly { message, status } => (remove_ok(
                    old(store)@,
                    final(store)@,
                    id,
                ) && status == 200 && message@ == "Event with id "@ + dec_rep(id as nat)
                    + " successfully deleted"@) || (!has_event(old(store)@, id) && final(store)@
                    == old(store)@ && status == 404 && message@ == "Event not found with id: "@
                    + dec_rep(id as nat)),
                _ => false,
            },
    {
        match EventRepository::remove(store, id) {
            Ok(message) => ApiResponse::message_only(message, 200),
            Err(e) => {
                let status = e.status();
                ApiResponse::message_only(e.message(), status)
            },
        }
    }

    /// Replace an event's fields by id: the edited event with status 200,
    /// a 400 message for an invalid submission, or a 404 message.
    pub fn edit_event(store: &mut GraphStore, id: u16, event: EventUpdate) -> (r: ApiResponse<
        Event,
    >)
        requires
            wf(old(store)@),
        ensures
            wf(final(store)@),
            match r {
                ApiResponse::Success { data, message, status } => edit_ok(
                    old(store)@,
                    final(store)@,
                    id,
                    event@,
                    data@,
                ) && status == 200 && message@ == "Event edited successfully"@,
                ApiResponse::MessageOnly { message, status } => final(store)@ == old(store)@ && ((
                !valid_update(event@) && status == 400 && message@ == validation_message(event@))
                    || (valid_update(event@) && !has_event(old(store)@, id) && status == 404
                    && message@ == "Event not found with id: "@ + dec_rep(id as nat))),
                _ => false,
            },
    {
        match EventRepository::edit(store, id, event) {
            Ok(event) => ApiResponse::success(event, "Event edited successfully"),
            Err(e) => {
                let status = e.status();
                ApiResponse::message_only(e.message(), status)
            },
        }
    }

    /// The featured listing: the first stored events, at most three.
    pub fn get_featured_events(store: &GraphStore) -> (r: ApiResponse<Vec<Event>>)
        ensures
            match r {
                ApiResponse::Success { data, message, status } => data.deep_view() == featured(
                    store@.events,
                ) && status == 200 && message@ == "Events found successfully"@,
                _ => false,
            },
    {
        match EventRepository::get_featured(store) {
            Ok(events) => ApiResponse::success(events, "Events found successfully"),
            Err(e) => {
                let status = e.status();
                ApiResponse::message_only(e.message(), status)
            },
        }
    }

    /// The events carrying every requested keyword.
    pub fn get_events_by_keywords(store: &GraphStore, keyword: Vec<String>) -> (r: ApiResponse<
        Vec<Event>,
    >)
        requires
            wf(store@),
        ensures
            match r {
                ApiResponse::Success { data, message, status } => data.deep_view()
                    == store@.events.filter(
                    |e: EventView| e.keywords.len() > 0 && kw_superset(e, keyword.deep_view()),
                ) && status == 200 && message@ == "Events found successfully"@,
                _ => false,
            },
    {
        match EventRepository::get_events_by_keywords(store, keyword) {
            Ok(events) => ApiResponse::success(events, "Events found successfully"),
            Err(e) => {
                let status = e.status();
                ApiResponse::message_only(e.message(), status)
            },
        }
    }
}

} // verus!
