//! The cross-operation guarantees of the library, proved once and for all
//! over the named transition predicates that the repository contracts
//! establish.

use vstd::prelude::*;

use crate::models::event::EventUpdateView;
use crate::models::event::EventView;
use crate::repo::events::add_ok;
use crate::repo::events::edit_ok;
use crate::repo::events::lemma_max_id_bounds;
use crate::repo::events::remove_ok;
use crate::repo::users_events::assign_ok;
use crate::repo::users_events::reg_index;
use crate::repo::users_events::unassign_ok;
use crate::sequtil::lemma_dedup_props;
use crate::store::RegView;
use crate::store::StoreView;
use crate::store::event_at;
use crate::store::event_index;
use crate::store::has_event;
use crate::store::has_user;
use crate::store::registered;
use crate::store::wf;

verus! {

/// After a successful `add`, looking the new id up returns an event with
/// exactly the submitted name, start time and keyword set (as a set,
/// order-independent): `find_by_id` answers `event_at(post, ev.id)`, which
/// is the created event.
pub proof fn lemma_add_then_find_by_id(
    pre: StoreView,
    post: StoreView,
    u: EventUpdateView,
    ev: EventView,
)
    requires
        wf(pre),
        add_ok(pre, post, u, ev),
    ensures
        has_event(post, ev.id),
        event_at(post, ev.id) == ev,
        ev.name == u.name,
        ev.start_datetime == u.start_datetime,
        ev.keywords.to_set() == u.keywords.to_set(),
{
    lemma_max_id_bounds(pre.events);
    let n = pre.events.len() as int;
    assert(post.events[n] == ev);
    assert(has_event(post, ev.id));
    let j = event_index(post, ev.id);
    assert(0 <= j < post.events.len() && post.events[j].id == ev.id);
    if j < n {
        assert(pre.events[j].id == ev.id);
    }
    lemma_dedup_props(u.keywords);
}

/// After a successful `edit`, looking the id up returns an event with
/// exactly the submitted fields — keyword removal included: what is not in
/// the submitted set is gone.
pub proof fn lemma_edit_then_find_by_id(
    pre: StoreView,
    post: StoreView,
    id: u16,
    u: EventUpdateView,
    ev: EventView,
)
    requires
        wf(pre),
        edit_ok(pre, post, id, u, ev),
    ensures
        has_event(post, id),
        event_at(post, id) == ev,
        ev.name == u.name,
        ev.start_datetime == u.start_datetime,
        ev.keywords.to_set() == u.keywords.to_set(),
{
    let idx = event_index(pre, id);
    assert(0 <= idx < pre.events.len() && pre.events[idx].id == id);
    assert(post.events[idx] == ev);
    assert(has_event(post, id));
    let j = event_index(post, id);
    assert(0 <= j < post.events.len() && post.events[j].id == id);
    if j != idx {
        assert(post.events[j] == pre.events[j]);
        assert(pre.events[j].id == pre.events[idx].id);
    }
    lemma_dedup_props(u.keywords);
}

/// After a successful `remove`, the id is gone: `find_by_id` fails with
/// `NotFound`, and so does a second `remove` of the same id — deletion is
/// not idempotent-success.
pub proof fn lemma_remove_then_not_found(pre: StoreView, post: StoreView, id: u16)
    requires
        wf(pre),
        remove_ok(pre, post, id),
    ensures
        !has_event(post, id),
{
    let idx = event_index(pre, id);
    assert(0 <= idx < pre.events.len() && pre.events[idx].id == id);
    if has_event(post, id) {
        let j = choose|j: int| 0 <= j < post.events.len() && post.events[j].id == id;
        let j0 = if j < idx {
            j
        } else {
            j + 1
        };
        assert(post.events[j] == pre.events[j0]);
        assert(pre.events[j0].id == pre.events[idx].id);
    }
}

/// Registering twice is idempotent: the second call changes nothing, and
/// after one call or two there is exactly one registration edge for the
/// pair — an edge exists, and no two distinct positions carry it.
pub proof fn lemma_assign_idempotent(
    s0: StoreView,
    s1: StoreView,
    s2: StoreView,
    u: Seq<char>,
    id: u16,
)
    requires
        wf(s0),
        wf(s1),
        assign_ok(s0, s1, u, id),
        assign_ok(s1, s2, u, id),
        has_user(s0, u),
        has_event(s0, id),
    ensures
        s2.regs == s1.regs,
        registered(s1, u, id),
        forall|i: int, j: int|
            0 <= i < s1.regs.len() && 0 <= j < s1.regs.len() && s1.regs[i] == (RegView {
                user: u,
                event_id: id,
            }) && s1.regs[j] == (RegView { user: u, event_id: id }) ==> i == j,
{
    let rv = RegView { user: u, event_id: id };
    if !registered(s0, u, id) {
        assert(s1.regs == s0.regs.push(rv));
        assert(s1.regs[s1.regs.len() - 1] == rv);
        assert(registered(s1, u, id)) by {
            assert(s1.regs.contains(rv));
        }
    }
    assert(has_user(s1, u));
    assert(has_event(s1, id));
}

/// Immediately after `assign` with both endpoints present, `is_registered`
/// answers true.
pub proof fn lemma_assign_then_registered(s0: StoreView, s1: StoreView, u: Seq<char>, id: u16)
    requires
        assign_ok(s0, s1, u, id),
        has_user(s0, u),
        has_event(s0, id),
    ensures
        registered(s1, u, id),
{
    let rv = RegView { user: u, event_id: id };
    if !registered(s0, u, id) {
        assert(s1.regs[s1.regs.len() - 1] == rv);
        assert(s1.regs.contains(rv));
    }
}

/// Immediately after `unassign` with both endpoints present,
/// `is_registered` answers false.
pub proof fn lemma_unassign_then_not_registered(s0: StoreView, s1: StoreView, u: Seq<char>, id: u16)
    requires
        wf(s0),
        unassign_ok(s0, s1, u, id),
        has_user(s0, u),
        has_event(s0, id),
    ensures
        !registered(s1, u, id),
{
    let rv = RegView { user: u, event_id: id };
    if registered(s0, u, id) {
        let idx = reg_index(s0, u, id);
        assert(0 <= idx < s0.regs.len() && s0.regs[idx] == rv);
        assert(s1.regs == s0.regs.remove(idx));
        if registered(s1, u, id) {
            let i = choose|i: int| 0 <= i < s1.regs.len() && s1.regs[i] == rv;
            let i0 = if i < idx {
                i
            } else {
                i + 1
            };
            assert(s1.regs[i] == s0.regs[i0]);
            assert(s0.regs[i0] == s0.regs[idx]);
        }
    }
}

} // verus!
