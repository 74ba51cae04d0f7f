//! The event repository: lookups, listings and mutations of event nodes and
//! their keyword edges, verified against the store model.

use vstd::prelude::*;

use crate::models::event::Event;
use crate::models::event::EventView;
use crate::repo::ApiError;
use crate::models::event::EventUpdate;
use crate::models::event::EventUpdateView;
use crate::models::event::valid_update;
use crate::models::event::validation_message;
use crate::sequtil::dedup;
use crate::sequtil::lemma_contains_push;
use crate::sequtil::lemma_dedup_props;
use crate::sequtil::lemma_dedup_take_step;
use crate::sequtil::lemma_filter_no_duplicates;
use crate::sequtil::lemma_filter_subset;
use crate::sequtil::lemma_filter_take_step;
use crate::sequtil::lemma_take_all;
use crate::store::RegView;
use crate::store::Registration;
use crate::store::event_entry_wf;
use crate::store::has_user;
use crate::store::GraphStore;
use crate::store::StoreView;
use crate::store::event_at;
use crate::store::event_index;
use crate::store::has_event;
use crate::store::lemma_event_index_unique;
use crate::store::wf;
use crate::strutil::dec_rep;
use crate::strutil::is_blank;
use crate::strutil::u16_to_string;
use crate::strutil::vec_contains_str;

verus! {

/// Failures of event operations.
#[derive(Debug)]
pub enum EventRepoError {
    /// The store itself failed; the payload renders the underlying cause.
    DatabaseError(String),
    /// No event node carries this id.
    NotFound(u16),
    /// A row could not be decoded into an `Event`.
    ParseError(String),
    /// The submitted fields were rejected; the payload is the reason.
    ValidationError(String),
    /// Any other failure, rendered as text.
    Other(String),
}

impl ApiError for EventRepoError {
    open spec fn spec_status(&self) -> u16 {
        match self {
            EventRepoError::NotFound(_) => 404,
            EventRepoError::DatabaseError(_) => 500,
            _ => 400,
        }
    }

    fn status(&self) -> (s: u16)
        ensures
            s == self.spec_status(),
    {
        match self {
            EventRepoError::NotFound(_) => 404,
            EventRepoError::DatabaseError(_) => 500,
            _ => 400,
        }
    }
}

impl EventRepoError {
    /// The text of the error.
    pub open spec fn spec_message(&self) -> Seq<char> {
        match self {
            EventRepoError::DatabaseError(c) => "Database error: "@ + c@,
            EventRepoError::NotFound(id) => "Event not found with id: "@ + dec_rep(id as nat),
            EventRepoError::ParseError(m) => "Error parsing event: "@ + m@,
            EventRepoError::ValidationError(m) => m@,
            EventRepoError::Other(m) => "Error: "@ + m@,
        }
    }

    /// Render the error as text.
    pub fn message(&self) -> (m: String)
        ensures
            m@ == self.spec_message(),
    {
        match self {
            EventRepoError::DatabaseError(c) => "Database error: ".to_owned().concat(c.as_str()),
            EventRepoError::NotFound(id) => {
                let n = u16_to_string(*id);
                "Event not found with id: ".to_owned().concat(n.as_str())
            },
            EventRepoError::ParseError(m) => "Error parsing event: ".to_owned().concat(m.as_str()),
            EventRepoError::ValidationError(m) => m.clone(),
            EventRepoError::Other(m) => "Error: ".to_owned().concat(m.as_str()),
        }
    }
}

/// An event's keyword set contains every requested keyword.
pub open spec fn kw_superset(e: EventView, kws: Seq<Seq<char>>) -> bool {
    forall|k: int| 0 <= k < kws.len() ==> e.keywords.contains(#[trigger] kws[k])
}

/// The first events of the store, at most three of them.
pub open spec fn featured(events: Seq<EventView>) -> Seq<EventView> {
    if events.len() <= 3 {
        events
    } else {
        events.take(3)
    }
}

/// The largest event id in use, 0 when there are none.  Ids are assigned as
/// this value plus one; deleting the event with the largest id therefore
/// frees that id for the next creation, while any other id stays retired.
pub open spec fn max_id(events: Seq<EventView>) -> int
    decreases events.len(),
{
    if events.len() == 0 {
        0
    } else {
        let m = max_id(events.drop_last());
        if events.last().id > m {
            events.last().id as int
        } else {
            m
        }
    }
}

/// Every id in use is at most the maximum, and the maximum stays in id range.
pub proof fn lemma_max_id_bounds(events: Seq<EventView>)
    ensures
        0 <= max_id(events) <= u16::MAX,
        forall|i: int| 0 <= i < events.len() ==> (#[trigger] events[i]).id <= max_id(events),
    decreases events.len(),
{
    if events.len() > 0 {
        lemma_max_id_bounds(events.drop_last());
        assert forall|i: int|
            0 <= i < events.len() implies (#[trigger] events[i]).id <= max_id(events) by {
            if i < events.len() - 1 {
                assert(events.drop_last()[i] == events[i]);
            }
        }
    }
}

/// What a successful `add` did: the submission was valid, the new event got
/// the next id with exactly the submitted fields (keywords deduplicated),
/// it was appended to the store, the missing keyword nodes were interned in
/// submission order, and nothing else changed.
pub open spec fn add_ok(pre: StoreView, post: StoreView, u: EventUpdateView, ev: EventView) -> bool {
    &&& valid_update(u)
    &&& max_id(pre.events) < u16::MAX
    &&& ev.id == max_id(pre.events) + 1
    &&& ev.name == u.name
    &&& ev.start_datetime == u.start_datetime
    &&& ev.keywords == dedup(u.keywords)
    &&& post.events == pre.events.push(ev)
    &&& post.keywords == pre.keywords + dedup(u.keywords).filter(
        |k: Seq<char>| !pre.keywords.contains(k),
    )
    &&& post.users == pre.users
    &&& post.regs == pre.regs
}

/// What a successful `edit` did: the submission was valid, the event kept
/// its id but carries exactly the submitted fields, its node was replaced in
/// place, the missing keyword nodes were interned, and nothing else changed.
pub open spec fn edit_ok(
    pre: StoreView,
    post: StoreView,
    id: u16,
    u: EventUpdateView,
    ev: EventView,
) -> bool {
    &&& valid_update(u)
    &&& has_event(pre, id)
    &&& ev.id == id
    &&& ev.name == u.name
    &&& ev.start_datetime == u.start_datetime
    &&& ev.keywords == dedup(u.keywords)
    &&& post.events == pre.events.update(event_index(pre, id), ev)
    &&& post.keywords == pre.keywords + dedup(u.keywords).filter(
        |k: Seq<char>| !pre.keywords.contains(k),
    )
    &&& post.users == pre.users
    &&& post.regs == pre.regs
}

/// What a successful `remove` did: the event node left the store together
/// with every registration edge touching it; keyword nodes and users stayed.
pub open spec fn remove_ok(pre: StoreView, post: StoreView, id: u16) -> bool {
    &&& has_event(pre, id)
    &&& post.events == pre.events.remove(event_index(pre, id))
    &&& post.regs == pre.regs.filter(|rv: RegView| rv.event_id != id)
    &&& post.keywords == pre.keywords
    &&& post.users == pre.users
}

/// Queries and mutations on event nodes.  A repository holds no state of its
/// own; every operation reads or rewrites the shared graph store.
pub struct EventRepository {}

impl EventRepository {
    /// Look one event up by id, with its keywords aggregated; an absent id is
    /// `NotFound`.
    pub fn find_by_id(store: &GraphStore, id: u16) -> (r: Result<Event, EventRepoError>)
        requires
            wf(store@),
        ensures
            match r {
                Ok(ev) => has_event(store@, id) && ev@ == event_at(store@, id),
                Err(e) => !has_event(store@, id) && e == EventRepoError::NotFound(id),
            },
    {
        match Self::index_of_event(store, id) {
            Some(i) => {
                let ev = store.events[i].clone();
                proof {
                    assert(store@.events[i as int] == store.events@[i as int].deep_view());
                }
                Ok(ev)
            },
            None => Err(EventRepoError::NotFound(id)),
        }
    }

    /// The position of the event node with this id, if any.
    fn index_of_event(store: &GraphStore, id: u16) -> (r: Option<usize>)
        requires
            wf(store@),
        ensures
            match r {
                Some(i) => has_event(store@, id) && i < store@.events.len() && i as int
                    == event_index(store@, id),
                None => !has_event(store@, id),
            },
    {
        let mut i: usize = 0;
        while i < store.events.len()
            invariant
                0 <= i <= store.events.len(),
                wf(store@),
                forall|j: int| 0 <= j < i ==> store@.events[j].id != id,
            decreases store.events.len() - i,
        {
            if store.events[i].id == id {
                proof {
                    assert(store@.events[i as int] == store.events@[i as int].deep_view());
                    lemma_event_index_unique(store@, id, i as int);
                }
                return Some(i);
            }
            proof {
                assert(store@.events[i as int] == store.events@[i as int].deep_view());
            }
            i += 1;
        }
        assert(!has_event(store@, id));
        None
    }

    /// List every event with its keywords, in store order.
    pub fn find_all(store: &GraphStore) -> (r: Result<Vec<Event>, EventRepoError>)
        ensures
            match r {
                Ok(v) => v.deep_view() == store@.events,
                Err(_) => false,
            },
    {
        let mut out: Vec<Event> = Vec::new();
        let mut i: usize = 0;
        while i < store.events.len()
            invariant
                0 <= i <= store.events.len(),
                out.deep_view() == store@.events.take(i as int),
            decreases store.events.len() - i,
        {
            let ghost prev = out.deep_view();
            let ev = store.events[i].clone();
            proof {
                assert(store@.events[i as int] == store.events@[i as int].deep_view());
            }
            out.push(ev);
            proof {
                assert(out.deep_view() =~= prev.push(ev@));
                assert(store@.events.take(i + 1) =~= store@.events.take(i as int).push(
                    store@.events[i as int],
                ));
            }
            i += 1;
        }
        proof {
            lemma_take_all(store@.events);
        }
        Ok(out)
    }

    /// The featured listing: the first events the store returns, capped at
    /// three.  No ranking is applied.
    pub fn get_featured(store: &GraphStore) -> (r: Result<Vec<Event>, EventRepoError>)
        ensures
            match r {
                Ok(v) => v.deep_view() == featured(store@.events),
                Err(_) => false,
            },
    {
        let limit = if store.events.len() < 3 {
            store.events.len()
        } else {
            3
        };
        let mut out: Vec<Event> = Vec::new();
        let mut i: usize = 0;
        while i < limit
            invariant
                0 <= i <= limit,
                limit == if store@.events.len() < 3 {
                    store@.events.len() as int
                } else {
                    3int
                },
                limit <= store@.events.len(),
                out.deep_view() == store@.events.take(i as int),
            decreases limit - i,
        {
            let ghost prev = out.deep_view();
            let ev = store.events[i].clone();
            proof {
                assert(store@.events[i as int] == store.events@[i as int].deep_view());
            }
            out.push(ev);
            proof {
                assert(out.deep_view() =~= prev.push(ev@));
                assert(store@.events.take(i + 1) =~= store@.events.take(i as int).push(
                    store@.events[i as int],
                ));
            }
            i += 1;
        }
        proof {
            if store@.events.len() <= 3 {
                lemma_take_all(store@.events);
            }
        }
        Ok(out)
    }

    /// List the events whose keyword set contains every requested keyword
    /// (AND semantics), in store order.  The traversal goes through the
    /// keyword edges, so an event without any keyword never matches, not
    /// even an empty request.
    pub fn get_events_by_keywords(store: &GraphStore, keyword: Vec<String>) -> (r: Result<
        Vec<Event>,
        EventRepoError,
    >)
        requires
            wf(store@),
        ensures
            match r {
                Ok(v) => v.deep_view() == store@.events.filter(
                    |e: EventView| e.keywords.len() > 0 && kw_superset(e, keyword.deep_view()),
                ),
                Err(_) => false,
            },
    {
        let mut out: Vec<Event> = Vec::new();
        let mut i: usize = 0;
        while i < store.events.len()
            invariant
                0 <= i <= store.events.len(),
                out.deep_view() == store@.events.take(i as int).filter(
                    |e: EventView| e.keywords.len() > 0 && kw_superset(e, keyword.deep_view()),
                ),
            decreases store.events.len() - i,
        {
            let ghost pred = |e: EventView| e.keywords.len() > 0 && kw_superset(
                e,
                keyword.deep_view(),
            );
            let ghost prev = out.deep_view();
            proof {
                assert(store@.events[i as int] == store.events@[i as int].deep_view());
            }
            if store.events[i].keywords.len() > 0 && Self::has_all_keywords(
                &store.events[i],
                &keyword,
            ) {
                let ev = store.events[i].clone();
                out.push(ev);
                proof {
                    assert(out.deep_view() =~= prev.push(ev@));
                }
            }
            proof {
                lemma_filter_take_step(store@.events, pred, i as int);
            }
            i += 1;
        }
        proof {
            lemma_take_all(store@.events);
        }
        Ok(out)
    }

    /// The largest id any event node carries, 0 with no events.
    fn max_event_id(store: &GraphStore) -> (m: u16)
        ensures
            m as int == max_id(store@.events),
    {
        let mut m: u16 = 0;
        let mut i: usize = 0;
        while i < store.events.len()
            invariant
                0 <= i <= store.events.len(),
                m as int == max_id(store@.events.take(i as int)),
            decreases store.events.len() - i,
        {
            proof {
                assert(store@.events[i as int] == store.events@[i as int].deep_view());
                assert(store@.events.take(i + 1).drop_last() =~= store@.events.take(i as int));
                assert(store@.events.take(i + 1).last() == store@.events[i as int]);
            }
            let id = store.events[i].id;
            if id > m {
                m = id;
            }
            i += 1;
        }
        proof {
            lemma_take_all(store@.events);
        }
        m
    }

    /// The submitted keywords with repetitions dropped, first occurrences
    /// kept: the store merges keyword nodes, so one edge per distinct name.
    fn dedup_keywords(kws: &Vec<String>) -> (out: Vec<String>)
        ensures
            out.deep_view() == dedup(kws.deep_view()),
    {
        let mut out: Vec<String> = Vec::new();
        let mut i: usize = 0;
        while i < kws.len()
            invariant
                0 <= i <= kws.len(),
                out.deep_view() == dedup(kws.deep_view().take(i as int)),
            decreases kws.len() - i,
        {
            let ghost prev = out.deep_view();
            proof {
                assert(kws.deep_view()[i as int] == kws@[i as int]@);
                lemma_dedup_take_step(kws.deep_view(), i as int);
            }
            if !vec_contains_str(&out, kws[i].as_str()) {
                out.push(kws[i].clone());
                proof {
                    assert(out.deep_view() =~= prev.push(kws.deep_view()[i as int]));
                }
            }
            i += 1;
        }
        proof {
            lemma_take_all(kws.deep_view());
        }
        out
    }

    /// Intern keyword nodes: append each name not yet in the store, in the
    /// order given.  Nothing else of the store changes.
    fn merge_keywords(store: &mut GraphStore, kws: &Vec<String>)
        requires
            old(store)@.keywords.no_duplicates(),
            kws.deep_view().no_duplicates(),
        ensures
            final(store)@.keywords == old(store)@.keywords + kws.deep_view().filter(
                |k: Seq<char>| !old(store)@.keywords.contains(k),
            ),
            final(store)@.keywords.no_duplicates(),
            forall|x: Seq<char>|
                #[trigger] final(store)@.keywords.contains(x) <==> (old(
                    store,
                )@.keywords.contains(x) || kws.deep_view().contains(x)),
            final(store)@.events == old(store)@.events,
            final(store)@.users == old(store)@.users,
            final(store)@.regs == old(store)@.regs,
    {
        let ghost base = store@.keywords;
        let ghost kv = kws.deep_view();
        let ghost pred = |k: Seq<char>| !base.contains(k);
        let mut i: usize = 0;
        while i < kws.len()
            invariant
                0 <= i <= kws.len(),
                base == old(store)@.keywords,
                kv == kws.deep_view(),
                pred == (|k: Seq<char>| !base.contains(k)),
                kv.no_duplicates(),
                base.no_duplicates(),
                store@.events == old(store)@.events,
                store@.users == old(store)@.users,
                store@.regs == old(store)@.regs,
                store@.keywords == base + kv.take(i as int).filter(pred),
                store@.keywords.no_duplicates(),
                forall|x: Seq<char>|
                    #[trigger] store@.keywords.contains(x) <==> (base.contains(x) || kv.take(
                        i as int,
                    ).contains(x)),
            decreases kws.len() - i,
        {
            let ghost cur = store@.keywords;
            proof {
                assert(kv[i as int] == kws@[i as int]@);
                lemma_filter_take_step(kv, pred, i as int);
                assert(kv.take(i + 1) =~= kv.take(i as int).push(kv[i as int]));
                assert(kv.take(i + 1).contains(kv[i as int])) by {
                    assert(kv.take(i + 1)[i as int] == kv[i as int]);
                }
                // This keyword was not merged earlier in this pass.
                assert(!kv.take(i as int).contains(kv[i as int])) by {
                    if kv.take(i as int).contains(kv[i as int]) {
                        let j = choose|j: int|
                            0 <= j < i && kv.take(i as int)[j] == kv[i as int];
                        assert(kv[j] == kv[i as int]);
                    }
                }
            }
            if !vec_contains_str(&store.keywords, kws[i].as_str()) {
                store.keywords.push(kws[i].clone());
                proof {
                    assert(store@.keywords =~= cur.push(kv[i as int]));
                    assert(pred(kv[i as int]));
                    assert(store@.keywords == base + kv.take(i + 1).filter(pred));
                    assert forall|x: Seq<char>|
                        #[trigger] store@.keywords.contains(x) <==> (base.contains(x) || kv.take(
                            i + 1,
                        ).contains(x)) by {
                        lemma_contains_push(cur, kv[i as int], x);
                        lemma_contains_push(kv.take(i as int), kv[i as int], x);
                    }
                }
            } else {
                proof {
                    assert(base.contains(kv[i as int]));
                    assert(!pred(kv[i as int]));
                    assert(store@.keywords == base + kv.take(i + 1).filter(pred));
                    assert forall|x: Seq<char>|
                        #[trigger] store@.keywords.contains(x) <==> (base.contains(x) || kv.take(
                            i + 1,
                        ).contains(x)) by {
                        lemma_contains_push(kv.take(i as int), kv[i as int], x);
                    }
                }
            }
            i += 1;
        }
        proof {
            lemma_take_all(kv);
        }
    }

    /// Create an event: validate, allocate the next id (largest in use plus
    /// one), intern the keyword nodes, create the `HAS` edges, and return the
    /// materialized event.  Nothing is created for an invalid submission, nor
    /// when the id space is exhausted.
    pub fn add(store: &mut GraphStore, event: EventUpdate) -> (r: Result<Event, EventRepoError>)
        requires
            wf(old(store)@),
        ensures
            wf(final(store)@),
            match r {
                Ok(ev) => add_ok(old(store)@, final(store)@, event@, ev@),
                Err(e) => final(store)@ == old(store)@ && match e {
                    EventRepoError::ValidationError(m) => !valid_update(event@) && m@
                        == validation_message(event@),
                    EventRepoError::Other(m) => valid_update(event@) && max_id(old(store)@.events)
                        == u16::MAX && m@ == "Can't create event"@,
                    _ => false,
                },
            },
    {
        let ghost pre = store@;
        let ghost ew = event@;
        if let Err(m) = event.validate() {
            return Err(EventRepoError::ValidationError(m));
        }
        let maxid = Self::max_event_id(store);
        if maxid == u16::MAX {
            return Err(EventRepoError::Other("Can't create event".to_owned()));
        }
        let nid = maxid + 1;
        let kws = Self::dedup_keywords(&event.keywords);
        proof {
            lemma_dedup_props(ew.keywords);
        }
        Self::merge_keywords(store, &kws);
        let ghost mid = store@;
        let ev = Event {
            id: nid,
            name: event.name,
            start_datetime: event.start_datetime,
            keywords: kws,
        };
        let ghost evv = ev@;
        let ev2 = ev.clone();
        store.events.push(ev);
        proof {
            let post = store@;
            assert(post.events =~= pre.events.push(evv));
            assert(post.keywords == mid.keywords);
            assert(post.users == pre.users);
            assert(post.regs == pre.regs);
            lemma_max_id_bounds(pre.events);
            assert(evv.keywords == dedup(ew.keywords));
            assert forall|x: Seq<char>|
                pre.keywords.contains(x) implies #[trigger] post.keywords.contains(x) by {
                assert(mid.keywords.contains(x));
            }
            assert forall|k: int|
                0 <= k < evv.keywords.len() implies post.keywords.contains(
                #[trigger] evv.keywords[k],
            ) by {
                assert(evv.keywords.contains(evv.keywords[k]));
                assert(mid.keywords.contains(evv.keywords[k]));
            }
            Self::lemma_wf_after_new_entry(pre, post, evv);
        }
        Ok(ev2)
    }

    /// A well-formed store stays well-formed when one fresh, valid entry is
    /// appended and its keywords have been interned.
    proof fn lemma_wf_after_new_entry(pre: StoreView, post: StoreView, evv: EventView)
        requires
            wf(pre),
            post.events == pre.events.push(evv),
            post.users == pre.users,
            post.regs == pre.regs,
            forall|x: Seq<char>|
                pre.keywords.contains(x) ==> #[trigger] post.keywords.contains(x),
            post.keywords.no_duplicates(),
            forall|i: int| 0 <= i < pre.events.len() ==> evv.id != (#[trigger] pre.events[i]).id,
            !is_blank(evv.name),
            !is_blank(evv.start_datetime),
            evv.keywords.no_duplicates(),
            forall|k: int|
                0 <= k < evv.keywords.len() ==> post.keywords.contains(
                    #[trigger] evv.keywords[k],
                ),
        ensures
            wf(post),
    {
        assert forall|i: int, j: int|
            0 <= i < post.events.len() && 0 <= j < post.events.len()
                && #[trigger] post.events[i].id == #[trigger] post.events[j].id implies i == j by {
            if i < pre.events.len() && j < pre.events.len() {
                assert(post.events[i] == pre.events[i]);
                assert(post.events[j] == pre.events[j]);
            } else if i < pre.events.len() {
                assert(post.events[j] == evv);
                assert(post.events[i] == pre.events[i]);
            } else if j < pre.events.len() {
                assert(post.events[i] == evv);
                assert(post.events[j] == pre.events[j]);
            }
        }
        assert forall|i: int|
            0 <= i < post.events.len() implies event_entry_wf(post, #[trigger] post.events[i]) by {
            if i < pre.events.len() {
                assert(post.events[i] == pre.events[i]);
                assert(event_entry_wf(pre, pre.events[i]));
            } else {
                assert(post.events[i] == evv);
            }
        }
        assert forall|i: int|
            0 <= i < post.regs.len() implies has_user(post, (#[trigger] post.regs[i]).user)
            && has_event(post, post.regs[i].event_id) by {
            assert(has_user(pre, pre.regs[i].user));
            assert(has_event(pre, pre.regs[i].event_id));
            let j = choose|j: int|
                0 <= j < pre.events.len() && pre.events[j].id == pre.regs[i].event_id;
            assert(post.events[j].id == pre.regs[i].event_id);
        }
    }

    /// Replace an event's name, start time and entire keyword-edge set with
    /// the submitted ones, as one atomic store operation.  The id is kept;
    /// keyword nodes the event no longer references survive.
    pub fn edit(store: &mut GraphStore, id: u16, event_update: EventUpdate) -> (r: Result<
        Event,
        EventRepoError,
    >)
        requires
            wf(old(store)@),
        ensures
            wf(final(store)@),
            match r {
                Ok(ev) => edit_ok(old(store)@, final(store)@, id, event_update@, ev@),
                Err(e) => final(store)@ == old(store)@ && match e {
                    EventRepoError::ValidationError(m) => !valid_update(event_update@) && m@
                        == validation_message(event_update@),
                    EventRepoError::NotFound(i) => valid_update(event_update@) && !has_event(
                        old(store)@,
                        id,
                    ) && i == id,
                    _ => false,
                },
            },
    {
        let ghost pre = store@;
        let ghost ew = event_update@;
        if let Err(m) = event_update.validate() {
            return Err(EventRepoError::ValidationError(m));
        }
        let idx = match Self::index_of_event(store, id) {
            Some(i) => i,
            None => {
                return Err(EventRepoError::NotFound(id));
            },
        };
        let kws = Self::dedup_keywords(&event_update.keywords);
        proof {
            lemma_dedup_props(ew.keywords);
        }
        Self::merge_keywords(store, &kws);
        let ghost mid = store@;
        let ev = Event {
            id,
            name: event_update.name,
            start_datetime: event_update.start_datetime,
            keywords: kws,
        };
        let ghost evv = ev@;
        let ev2 = ev.clone();
        store.events.remove(idx);
        store.events.insert(idx, ev);
        proof {
            let post = store@;
            assert(post.events =~= pre.events.update(idx as int, evv));
            assert(post.keywords == mid.keywords);
            assert(evv.keywords == dedup(ew.keywords));
            assert forall|x: Seq<char>|
                pre.keywords.contains(x) implies #[trigger] post.keywords.contains(x) by {
                assert(mid.keywords.contains(x));
            }
            assert forall|k: int|
                0 <= k < evv.keywords.len() implies post.keywords.contains(
                #[trigger] evv.keywords[k],
            ) by {
                assert(evv.keywords.contains(evv.keywords[k]));
                assert(mid.keywords.contains(evv.keywords[k]));
            }
            Self::lemma_wf_after_update_entry(pre, post, idx as int, evv);
        }
        Ok(ev2)
    }

    /// A well-formed store stays well-formed when one entry is replaced by a
    /// valid entry with the same id whose keywords have been interned.
    proof fn lemma_wf_after_update_entry(pre: StoreView, post: StoreView, idx: int, evv: EventView)
        requires
            wf(pre),
            0 <= idx < pre.events.len(),
            post.events == pre.events.update(idx, evv),
            post.users == pre.users,
            post.regs == pre.regs,
            forall|x: Seq<char>|
                pre.keywords.contains(x) ==> #[trigger] post.keywords.contains(x),
            post.keywords.no_duplicates(),
            evv.id == pre.events[idx].id,
            !is_blank(evv.name),
            !is_blank(evv.start_datetime),
            evv.keywords.no_duplicates(),
            forall|k: int|
                0 <= k < evv.keywords.len() ==> post.keywords.contains(
                    #[trigger] evv.keywords[k],
                ),
        ensures
            wf(post),
    {
        assert(forall|i: int|
            0 <= i < post.events.len() ==> #[trigger] post.events[i].id == pre.events[i].id);
        assert forall|i: int, j: int|
            0 <= i < post.events.len() && 0 <= j < post.events.len()
                && #[trigger] post.events[i].id == #[trigger] post.events[j].id implies i == j by {
            assert(pre.events[i].id == pre.events[j].id);
        }
        assert forall|i: int|
            0 <= i < post.events.len() implies event_entry_wf(post, #[trigger] post.events[i]) by {
            if i != idx {
                assert(post.events[i] == pre.events[i]);
                assert(event_entry_wf(pre, pre.events[i]));
            } else {
                assert(post.events[i] == evv);
            }
        }
        assert forall|i: int|
            0 <= i < post.regs.len() implies has_user(post, (#[trigger] post.regs[i]).user)
            && has_event(post, post.regs[i].event_id) by {
            assert(has_user(pre, pre.regs[i].user));
            assert(has_event(pre, pre.regs[i].event_id));
            let j = choose|j: int|
                0 <= j < pre.events.len() && pre.events[j].id == pre.regs[i].event_id;
            assert(post.events[j].id == pre.regs[i].event_id);
        }
    }

    /// Delete an event node and every edge touching it — registrations and
    /// keyword edges alike; keyword nodes survive.  An absent id is
    /// `NotFound`, also on a repeated delete.
    pub fn remove(store: &mut GraphStore, id: u16) -> (r: Result<String, EventRepoError>)
        requires
            wf(old(store)@),
        ensures
            wf(final(store)@),
            match r {
                Ok(m) => remove_ok(old(store)@, final(store)@, id) && m@ == "Event with id "@
                    + dec_rep(id as nat) + " successfully deleted"@,
                Err(e) => !has_event(old(store)@, id) && e == EventRepoError::NotFound(id)
                    && final(store)@ == old(store)@,
            },
    {
        let ghost pre = store@;
        let idx = match Self::index_of_event(store, id) {
            Some(i) => i,
            None => {
                return Err(EventRepoError::NotFound(id));
            },
        };
        store.events.remove(idx);
        let ghost pred = |rv: RegView| rv.event_id != id;
        let mut kept: Vec<Registration> = Vec::new();
        let mut i: usize = 0;
        while i < store.registrations.len()
            invariant
                0 <= i <= store.registrations.len(),
                store@.regs == pre.regs,
                pred == (|rv: RegView| rv.event_id != id),
                kept.deep_view() == pre.regs.take(i as int).filter(pred),
            decreases store.registrations.len() - i,
        {
            let ghost prev = kept.deep_view();
            proof {
                assert(pre.regs[i as int] == store.registrations@[i as int].deep_view());
                lemma_filter_take_step(pre.regs, pred, i as int);
            }
            if store.registrations[i].event_id != id {
                kept.push(store.registrations[i].clone());
                proof {
                    assert(kept.deep_view() =~= prev.push(pre.regs[i as int]));
                }
            }
            i += 1;
        }
        store.registrations = kept;
        proof {
            lemma_take_all(pre.regs);
            let post = store@;
            assert(post.events =~= pre.events.remove(idx as int));
            assert(post.regs == pre.regs.filter(pred));
            Self::lemma_wf_after_remove_entry(pre, post, idx as int, id);
        }
        let n = u16_to_string(id);
        let msg = "Event with id ".to_owned().concat(n.as_str()).concat(" successfully deleted");
        proof {
            assert(msg@ == "Event with id "@ + dec_rep(id as nat) + " successfully deleted"@);
        }
        Ok(msg)
    }

    /// A well-formed store stays well-formed when one event node is deleted
    /// together with every registration edge that touched it.
    proof fn lemma_wf_after_remove_entry(pre: StoreView, post: StoreView, idx: int, id: u16)
        requires
            wf(pre),
            0 <= idx < pre.events.len(),
            pre.events[idx].id == id,
            post.events == pre.events.remove(idx),
            post.keywords == pre.keywords,
            post.users == pre.users,
            post.regs == pre.regs.filter(|rv: RegView| rv.event_id != id),
        ensures
            wf(post),
    {
        let pred = |rv: RegView| rv.event_id != id;
        assert(forall|i: int|
            0 <= i < post.events.len() ==> #[trigger] post.events[i] == (if i < idx {
                pre.events[i]
            } else {
                pre.events[i + 1]
            }));
        assert forall|i: int, j: int|
            0 <= i < post.events.len() && 0 <= j < post.events.len()
                && #[trigger] post.events[i].id == #[trigger] post.events[j].id implies i == j by {
            let i0 = if i < idx { i } else { i + 1 };
            let j0 = if j < idx { j } else { j + 1 };
            assert(pre.events[i0].id == pre.events[j0].id);
        }
        assert forall|i: int|
            0 <= i < post.events.len() implies event_entry_wf(post, #[trigger] post.events[i]) by {
            let i0 = if i < idx { i } else { i + 1 };
            assert(event_entry_wf(pre, pre.events[i0]));
        }
        lemma_filter_no_duplicates(pre.regs, pred);
        assert forall|i: int|
            0 <= i < post.regs.len() implies has_user(post, (#[trigger] post.regs[i]).user)
            && has_event(post, post.regs[i].event_id) by {
            assert(post.regs.contains(post.regs[i]));
            lemma_filter_subset(pre.regs, pred, post.regs[i]);
            let j = choose|j: int| 0 <= j < pre.regs.len() && pre.regs[j] == post.regs[i];
            assert(has_user(pre, pre.regs[j].user));
            assert(has_event(pre, pre.regs[j].event_id));
            let k = choose|k: int|
                0 <= k < pre.events.len() && pre.events[k].id == pre.regs[j].event_id;
            assert(pre.regs[j].event_id != id);
            assert(k != idx);
            if k < idx {
                assert(post.events[k].id == pre.regs[j].event_id);
            } else {
                assert(post.events[k - 1].id == pre.regs[j].event_id);
            }
        }
    }

    /// Whether the event has an edge to every one of the given keywords.
    fn has_all_keywords(e: &Event, kws: &Vec<String>) -> (r: bool)
        ensures
            r == kw_superset(e@, kws.deep_view()),
    {
        let mut i: usize = 0;
        while i < kws.len()
            invariant
                0 <= i <= kws.len(),
                forall|k: int| 0 <= k < i ==> e@.keywords.contains(#[trigger] kws.deep_view()[k]),
            decreases kws.len() - i,
        {
            if !vec_contains_str(&e.keywords, kws[i].as_str()) {
                assert(kws.deep_view()[i as int] == kws@[i as int]@);
                return false;
            }
            proof {
                assert(kws.deep_view()[i as int] == kws@[i as int]@);
            }
            i += 1;
        }
        true
    }

    /// List the name of every keyword node in the store, including ones no
    /// event references any more.
    pub fn get_events_keywords(store: &GraphStore) -> (r: Result<Vec<String>, EventRepoError>)
        ensures
            match r {
                Ok(v) => v.deep_view() == store@.keywords,
                Err(_) => false,
            },
    {
        let out = crate::models::event::clone_keywords(&store.keywords);
        proof {
            assert(out.deep_view() =~= store@.keywords);
        }
        Ok(out)
    }
}

} // verus!
