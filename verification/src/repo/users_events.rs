//! The registration-edge repository: creating, deleting and reading
//! `REGISTERED_TO` edges, the traversal to a user's events, and the
//! keyword-similarity recommendation.

use vstd::prelude::*;

use crate::models::event::Event;
use crate::models::event::EventView;
use crate::repo::RepoError;
use crate::sequtil::lemma_contains_push;
use crate::sequtil::lemma_filter_no_duplicates;
use crate::sequtil::lemma_filter_subset;
use crate::sequtil::lemma_filter_take_step;
use crate::sequtil::lemma_take_all;
use crate::store::GraphStore;
use crate::store::RegView;
use crate::store::Registration;
use crate::store::StoreView;
use crate::store::event_entry_wf;
use crate::store::has_event;
use crate::store::has_user;
use crate::store::registered;
use crate::store::wf;
use crate::strutil::lex_lt;
use crate::strutil::str_eq;
use crate::strutil::str_lt;

verus! {

/// The position of the edge from this user to this event (meaningful when
/// `registered`).
pub open spec fn reg_index(s: StoreView, name: Seq<char>, id: u16) -> int {
    choose|i: int|
        0 <= i < s.regs.len() && s.regs[i] == (RegView { user: name, event_id: id })
}

/// What `assign` did: when both endpoints exist and the edge was missing it
/// was appended, otherwise nothing changed; nodes are never touched.
pub open spec fn assign_ok(pre: StoreView, post: StoreView, u: Seq<char>, id: u16) -> bool {
    &&& post.events == pre.events
    &&& post.keywords == pre.keywords
    &&& post.users == pre.users
    &&& if has_user(pre, u) && has_event(pre, id) && !registered(pre, u, id) {
        post.regs == pre.regs.push(RegView { user: u, event_id: id })
    } else {
        post.regs == pre.regs
    }
}

/// What `unassign` did: when both endpoints exist and the edge was present
/// it was removed, otherwise nothing changed; nodes are never touched.
pub open spec fn unassign_ok(pre: StoreView, post: StoreView, u: Seq<char>, id: u16) -> bool {
    &&& post.events == pre.events
    &&& post.keywords == pre.keywords
    &&& post.users == pre.users
    &&& if has_user(pre, u) && has_event(pre, id) && registered(pre, u, id) {
        post.regs == pre.regs.remove(reg_index(pre, u, id))
    } else {
        post.regs == pre.regs
    }
}

/// Reads and mutations of registration edges.  A repository holds no state
/// of its own; every operation reads or rewrites the shared graph store.
pub struct UserEventRepository {}

impl UserEventRepository {
    /// Whether a user node with this name exists.
    fn user_exists(store: &GraphStore, user_name: &str) -> (r: bool)
        ensures
            r == has_user(store@, user_name@),
    {
        let mut i: usize = 0;
        while i < store.users.len()
            invariant
                0 <= i <= store.users.len(),
                forall|j: int| 0 <= j < i ==> store@.users[j] != user_name@,
            decreases store.users.len() - i,
        {
            proof {
                assert(store@.users[i as int] == store.users@[i as int].deep_view());
            }
            if str_eq(store.users[i].name.as_str(), user_name) {
                assert(store@.users.contains(user_name@));
                return true;
            }
            i += 1;
        }
        assert(!has_user(store@, user_name@));
        false
    }

    /// Whether an event node with this id exists.
    fn event_exists(store: &GraphStore, event_id: u16) -> (r: bool)
        ensures
            r == has_event(store@, event_id),
    {
        let mut i: usize = 0;
        while i < store.events.len()
            invariant
                0 <= i <= store.events.len(),
                forall|j: int| 0 <= j < i ==> store@.events[j].id != event_id,
            decreases store.events.len() - i,
        {
            proof {
                assert(store@.events[i as int] == store.events@[i as int].deep_view());
            }
            if store.events[i].id == event_id {
                return true;
            }
            i += 1;
        }
        false
    }

    /// The position of the registration edge for this pair, if any.
    fn index_of_reg(store: &GraphStore, user_name: &str, event_id: u16) -> (r: Option<usize>)
        ensures
            match r {
                Some(i) => registered(store@, user_name@, event_id) && i < store@.regs.len()
                    && store@.regs[i as int] == (RegView {
                    user: user_name@,
                    event_id,
                }),
                None => !registered(store@, user_name@, event_id),
            },
    {
        let mut i: usize = 0;
        while i < store.registrations.len()
            invariant
                0 <= i <= store.registrations.len(),
                forall|j: int|
                    0 <= j < i ==> store@.regs[j] != (RegView {
                        user: user_name@,
                        event_id,
                    }),
            decreases store.registrations.len() - i,
        {
            proof {
                assert(store@.regs[i as int] == store.registrations@[i as int].deep_view());
            }
            let reg = &store.registrations[i];
            if reg.event_id == event_id && str_eq(reg.user_name.as_str(), user_name) {
                assert(store@.regs[i as int] == (RegView { user: user_name@, event_id }));
                assert(store@.regs.contains(RegView { user: user_name@, event_id }));
                return Some(i);
            }
            i += 1;
        }
        assert(!registered(store@, user_name@, event_id));
        None
    }

    /// Create the registration edge for this pair if both nodes exist; the
    /// edge is merged, so re-registering is a no-op, and a missing endpoint
    /// leaves the store untouched without failing.
    pub fn assign_user_to_event(store: &mut GraphStore, user_name: &str, event_id: u16) -> (r:
        Result<(), RepoError>)
        requires
            wf(old(store)@),
        ensures
            wf(final(store)@),
            r is Ok,
            assign_ok(old(store)@, final(store)@, user_name@, event_id),
            registered(final(store)@, user_name@, event_id) <==> (registered(
                old(store)@,
                user_name@,
                event_id,
            ) || (has_user(old(store)@, user_name@) && has_event(old(store)@, event_id))),
    {
        let ghost pre = store@;
        if !Self::user_exists(store, user_name) {
            return Ok(());
        }
        if !Self::event_exists(store, event_id) {
            return Ok(());
        }
        if let Some(_) = Self::index_of_reg(store, user_name, event_id) {
            return Ok(());
        }
        let ghost rv = RegView { user: user_name@, event_id };
        store.registrations.push(Registration { user_name: user_name.to_owned(), event_id });
        proof {
            let post = store@;
            assert(post.regs =~= pre.regs.push(rv));
            assert(post.regs[post.regs.len() - 1] == rv);
            assert(registered(post, user_name@, event_id));
            assert forall|i: int, j: int|
                0 <= i < post.regs.len() && 0 <= j < post.regs.len() && i != j implies post.regs[i]
                != post.regs[j] by {
                if i < pre.regs.len() && j < pre.regs.len() {
                    assert(post.regs[i] == pre.regs[i]);
                    assert(post.regs[j] == pre.regs[j]);
                } else if i < pre.regs.len() {
                    assert(pre.regs.contains(pre.regs[i]));
                } else if j < pre.regs.len() {
                    assert(pre.regs.contains(pre.regs[j]));
                }
            }
            assert(wf(post)) by {
                assert forall|i: int|
                    0 <= i < post.regs.len() implies has_user(post, (#[trigger] post.regs[i]).user)
                    && has_event(post, post.regs[i].event_id) by {
                    if i < pre.regs.len() {
                        assert(post.regs[i] == pre.regs[i]);
                        assert(has_user(pre, pre.regs[i].user));
                        assert(has_event(pre, pre.regs[i].event_id));
                    }
                }
                assert forall|i: int|
                    0 <= i < post.events.len() implies event_entry_wf(
                    post,
                    #[trigger] post.events[i],
                ) by {
                    assert(event_entry_wf(pre, pre.events[i]));
                }
            }
        }
        Ok(())
    }

    /// Delete the registration edge for this pair if all of user, event and
    /// edge exist; otherwise the store is left untouched without failing.
    pub fn unassign_user_from_event(store: &mut GraphStore, user_name: &str, event_id: u16) -> (r:
        Result<(), RepoError>)
        requires
            wf(old(store)@),
        ensures
            wf(final(store)@),
            r is Ok,
            unassign_ok(old(store)@, final(store)@, user_name@, event_id),
            !registered(final(store)@, user_name@, event_id),
    {
        let ghost pre = store@;
        if !Self::user_exists(store, user_name) {
            return Ok(());
        }
        if !Self::event_exists(store, event_id) {
            return Ok(());
        }
        let idx = match Self::index_of_reg(store, user_name, event_id) {
            Some(i) => i,
            None => {
                return Ok(());
            },
        };
        let ghost rv = RegView { user: user_name@, event_id };
        proof {
            assert(pre.regs[idx as int] == rv);
            assert(reg_index(pre, user_name@, event_id) == idx as int) by {
                let j = reg_index(pre, user_name@, event_id);
                assert(0 <= j < pre.regs.len() && pre.regs[j] == rv);
            }
        }
        store.registrations.remove(idx);
        proof {
            let post = store@;
            assert(post.regs =~= pre.regs.remove(idx as int));
            assert(forall|i: int|
                0 <= i < post.regs.len() ==> #[trigger] post.regs[i] == (if i < idx as int {
                    pre.regs[i]
                } else {
                    pre.regs[i + 1]
                }));
            assert(!registered(post, user_name@, event_id)) by {
                if post.regs.contains(rv) {
                    let i = choose|i: int| 0 <= i < post.regs.len() && post.regs[i] == rv;
                    let i0 = if i < idx as int {
                        i
                    } else {
                        i + 1
                    };
                    assert(pre.regs[i0] == rv);
                    assert(pre.regs[idx as int] == rv);
                }
            }
            assert(wf(post)) by {
                assert forall|i: int, j: int|
                    0 <= i < post.regs.len() && 0 <= j < post.regs.len() && i
                        != j implies post.regs[i] != post.regs[j] by {
                    let i0 = if i < idx as int {
                        i
                    } else {
                        i + 1
                    };
                    let j0 = if j < idx as int {
                        j
                    } else {
                        j + 1
                    };
                    assert(post.regs[i] == pre.regs[i0]);
                    assert(post.regs[j] == pre.regs[j0]);
                }
                assert forall|i: int|
                    0 <= i < post.regs.len() implies has_user(post, (#[trigger] post.regs[i]).user)
                    && has_event(post, post.regs[i].event_id) by {
                    let i0 = if i < idx as int {
                        i
                    } else {
                        i + 1
                    };
                    assert(post.regs[i] == pre.regs[i0]);
                    assert(has_user(pre, pre.regs[i0].user));
                    assert(has_event(pre, pre.regs[i0].event_id));
                }
                assert forall|i: int|
                    0 <= i < post.events.len() implies event_entry_wf(
                    post,
                    #[trigger] post.events[i],
                ) by {
                    assert(event_entry_wf(pre, pre.events[i]));
                }
            }
        }
        Ok(())
    }

    /// Whether the user is registered to the event.  The user's existence is
    /// part of the answer's precondition at the orchestration layer; here
    /// both nodes must exist for the store to return a row at all.
    pub fn is_user_registered_to_event(store: &GraphStore, user_name: &str, event_id: u16) -> (r:
        Result<bool, RepoError>)
        ensures
            match r {
                Ok(b) => has_user(store@, user_name@) && has_event(store@, event_id) && b
                    == registered(store@, user_name@, event_id),
                Err(e) => !(has_user(store@, user_name@) && has_event(store@, event_id)) && match e {
                    RepoError::Other(m) => m@ == "No result returned from query"@,
                    _ => false,
                },
            },
    {
        if !Self::user_exists(store, user_name) || !Self::event_exists(store, event_id) {
            return Err(RepoError::Other("No result returned from query".to_owned()));
        }
        match Self::index_of_reg(store, user_name, event_id) {
            Some(_) => Ok(true),
            None => Ok(false),
        }
    }

    /// The events the user is registered to, each with its keywords, in
    /// store order.  A name without a user node yields an empty listing.
    pub fn find_all_events_of_user(store: &GraphStore, user_name: &str) -> (r: Result<
        Vec<Event>,
        RepoError,
    >)
        ensures
            match r {
                Ok(v) => v.deep_view() == store@.events.filter(
                    |e: EventView| registered(store@, user_name@, e.id),
                ),
                Err(_) => false,
            },
    {
        let ghost pred = |e: EventView| registered(store@, user_name@, e.id);
        let mut out: Vec<Event> = Vec::new();
        let mut i: usize = 0;
        while i < store.events.len()
            invariant
                0 <= i <= store.events.len(),
                pred == (|e: EventView| registered(store@, user_name@, e.id)),
                out.deep_view() == store@.events.take(i as int).filter(pred),
            decreases store.events.len() - i,
        {
            let ghost prev = out.deep_view();
            proof {
                assert(store@.events[i as int] == store.events@[i as int].deep_view());
                lemma_filter_take_step(store@.events, pred, i as int);
            }
            let id = store.events[i].id;
            if let Some(_) = Self::index_of_reg(store, user_name, id) {
                let ev = store.events[i].clone();
                out.push(ev);
                proof {
                    assert(out.deep_view() =~= prev.push(store@.events[i as int]));
                }
            }
            i += 1;
        }
        proof {
            lemma_take_all(store@.events);
        }
        Ok(out)
    }
}

/// How many of `a`'s keywords also appear in `b`: the intersection size,
/// when both lists are duplicate-free.
pub open spec fn inter_count(a: Seq<Seq<char>>, b: Seq<Seq<char>>) -> int {
    a.filter(|k: Seq<char>| b.contains(k)).len() as int
}

/// How many of `b`'s keywords do not appear in `a`.
pub open spec fn missing_count(a: Seq<Seq<char>>, b: Seq<Seq<char>>) -> int {
    b.filter(|k: Seq<char>| !a.contains(k)).len() as int
}

/// The size of the union of the two keyword sets, when both lists are
/// duplicate-free.
pub open spec fn union_count(a: Seq<Seq<char>>, b: Seq<Seq<char>>) -> int {
    a.len() + missing_count(a, b)
}

/// Numerator of the Jaccard similarity of two events' keyword sets.
pub open spec fn sim_num(e: EventView, c: EventView) -> int {
    inter_count(e.keywords, c.keywords)
}

/// Denominator of the Jaccard similarity of two events' keyword sets.
pub open spec fn sim_den(e: EventView, c: EventView) -> int {
    union_count(e.keywords, c.keywords)
}

/// `n1/d1 >= n2/d2`, as a cross product (for positive denominators).
pub open spec fn frac_ge(n1: int, d1: int, n2: int, d2: int) -> bool {
    n1 * d2 >= n2 * d1
}

/// `n1/d1 > n2/d2`, as a cross product (for positive denominators).
pub open spec fn frac_gt(n1: int, d1: int, n2: int, d2: int) -> bool {
    n1 * d2 > n2 * d1
}

/// A Jaccard similarity above one half, strictly.
pub open spec fn similar_enough(n: int, d: int) -> bool {
    2 * n > d
}

/// The greatest similarity the candidate `c` reaches against any event of
/// `r`, as a (numerator, denominator) pair; `(0, 1)` against no events.  A
/// later event replaces the running best only when strictly better, so the
/// pair is determined.
pub open spec fn best_pair(r: Seq<EventView>, c: EventView) -> (int, int)
    decreases r.len(),
{
    if r.len() == 0 {
        (0, 1)
    } else {
        let p = best_pair(r.drop_last(), c);
        let n = sim_num(r.last(), c);
        let d = sim_den(r.last(), c);
        if frac_gt(n, d, p.0, p.1) {
            (n, d)
        } else {
            p
        }
    }
}

/// The events the user is registered to, as the store lists them.
pub open spec fn regs_of(s: StoreView, u: Seq<char>) -> Seq<EventView> {
    s.events.filter(|e: EventView| registered(s, u, e.id))
}

/// What a recommendation listing holds: exactly the recommended candidates,
/// each once, ordered by their best similarity, highest first.
pub open spec fn recommendation_ok(s: StoreView, u: Seq<char>, now: Seq<char>, v: Seq<EventView>) -> bool {
    &&& forall|k: int| 0 <= k < v.len() ==> recommended(s, u, now, #[trigger] v[k])
    &&& forall|c: EventView| recommended(s, u, now, c) ==> v.contains(c)
    &&& v.no_duplicates()
    &&& forall|i: int, j: int|
        0 <= i < j < v.len() ==> frac_ge(
            best_pair(regs_of(s, u), #[trigger] v[i]).0,
            best_pair(regs_of(s, u), v[i]).1,
            best_pair(regs_of(s, u), #[trigger] v[j]).0,
            best_pair(regs_of(s, u), v[j]).1,
        )
}

/// The candidate `c` is recommended to user `u` at time `now`: a stored
/// event strictly in the future, not already registered to, whose best
/// Jaccard similarity against the user's events exceeds one half.
pub open spec fn recommended(s: StoreView, u: Seq<char>, now: Seq<char>, c: EventView) -> bool {
    let p = best_pair(regs_of(s, u), c);
    &&& s.events.contains(c)
    &&& lex_lt(now, c.start_datetime)
    &&& !registered(s, u, c.id)
    &&& similar_enough(p.0, p.1)
}

/// A fraction at least as large as one above one half is above one half.
pub proof fn lemma_frac_ge_keeps_similar(n1: int, d1: int, n2: int, d2: int)
    by (nonlinear_arith)
    requires
        d1 > 0,
        d2 > 0,
        frac_ge(n1, d1, n2, d2),
        similar_enough(n2, d2),
    ensures
        similar_enough(n1, d1),
{
}

/// The fraction order is transitive (for positive denominators).
proof fn lemma_frac_ge_trans(n1: int, d1: int, n2: int, d2: int, n3: int, d3: int)
    by (nonlinear_arith)
    requires
        d1 > 0,
        d2 > 0,
        d3 > 0,
        frac_ge(n1, d1, n2, d2),
        frac_ge(n2, d2, n3, d3),
    ensures
        frac_ge(n1, d1, n3, d3),
{
}

/// The similarity fraction is a well-formed ratio: the intersection is never
/// larger than the union, and neither count is negative.  The denominator is
/// zero exactly when both keyword sets are empty.
pub proof fn lemma_sim_bounds(e: EventView, c: EventView)
    ensures
        0 <= sim_num(e, c),
        sim_num(e, c) <= sim_den(e, c),
{
    e.keywords.lemma_filter_len(|k: Seq<char>| c.keywords.contains(k));
}

/// The best pair dominates every pairwise similarity, has a positive
/// denominator, and is above one half exactly when some pairwise similarity
/// is — so a candidate is recommended exactly when its similarity to *some*
/// event of the user strictly exceeds one half.  A pair of two keyword-less
/// events has denominator zero and never beats the running best.
pub proof fn lemma_best_pair_props(r: Seq<EventView>, c: EventView)
    ensures
        best_pair(r, c).1 > 0,
        0 <= best_pair(r, c).0,
        forall|k: int|
            0 <= k < r.len() ==> frac_ge(
                best_pair(r, c).0,
                best_pair(r, c).1,
                sim_num(#[trigger] r[k], c),
                sim_den(r[k], c),
            ),
        similar_enough(best_pair(r, c).0, best_pair(r, c).1) <==> exists|k: int|
            0 <= k < r.len() && similar_enough(sim_num(#[trigger] r[k], c), sim_den(r[k], c)),
    decreases r.len(),
{
    if r.len() > 0 {
        let rest = r.drop_last();
        assert(forall|k: int| 0 <= k < rest.len() ==> rest[k] == r[k]);
        lemma_best_pair_props(rest, c);
        let p = best_pair(rest, c);
        let n = sim_num(r.last(), c);
        let d = sim_den(r.last(), c);
        let b = best_pair(r, c);
        assert(r[r.len() - 1] == r.last());
        lemma_sim_bounds(r.last(), c);
        if frac_gt(n, d, p.0, p.1) {
            assert(b == (n, d));
            // Beating the running best takes a nonzero numerator, so the
            // winning pair's denominator is positive.
            assert(n > 0 && d > 0) by {
                if n == 0 {
                    assert(n * p.1 == 0) by (nonlinear_arith)
                        requires
                            n == 0,
                    ;
                    assert(p.0 * d >= 0) by (nonlinear_arith)
                        requires
                            p.0 >= 0,
                            d >= 0,
                    ;
                }
            }
            assert forall|k: int|
                0 <= k < r.len() implies frac_ge(b.0, b.1, sim_num(#[trigger] r[k], c), sim_den(r[k], c)) by {
                if k < r.len() - 1 {
                    assert(frac_ge(p.0, p.1, sim_num(rest[k], c), sim_den(rest[k], c)));
                    assert(frac_ge(n, d, p.0, p.1));
                    lemma_sim_bounds(r[k], c);
                    if sim_den(r[k], c) > 0 {
                        lemma_frac_ge_trans(n, d, p.0, p.1, sim_num(r[k], c), sim_den(r[k], c));
                    } else {
                        assert(frac_ge(b.0, b.1, 0, 0)) by (nonlinear_arith);
                    }
                } else {
                    assert(frac_ge(n, d, n, d));
                }
            }
            assert(similar_enough(b.0, b.1) <==> exists|k: int|
                0 <= k < r.len() && similar_enough(sim_num(#[trigger] r[k], c), sim_den(r[k], c))) by {
                if similar_enough(b.0, b.1) {
                    assert(similar_enough(sim_num(r[r.len() - 1], c), sim_den(r[r.len() - 1], c)));
                } else {
                    if exists|k: int|
                        0 <= k < r.len() && similar_enough(
                            sim_num(#[trigger] r[k], c),
                            sim_den(r[k], c),
                        ) {
                        let k = choose|k: int|
                            0 <= k < r.len() && similar_enough(
                                sim_num(#[trigger] r[k], c),
                                sim_den(r[k], c),
                            );
                        lemma_frac_ge_keeps_similar(b.0, b.1, sim_num(r[k], c), sim_den(r[k], c));
                    }
                }
            }
        } else {
            assert(b == p);
            // Not strictly greater means the running best dominates the last
            // pair as well.
            assert(frac_ge(p.0, p.1, n, d));
            assert forall|k: int|
                0 <= k < r.len() implies frac_ge(b.0, b.1, sim_num(#[trigger] r[k], c), sim_den(r[k], c)) by {
                if k < r.len() - 1 {
                    assert(frac_ge(p.0, p.1, sim_num(rest[k], c), sim_den(rest[k], c)));
                }
            }
            // A pair above one half cannot have a zero denominator.
            if similar_enough(n, d) {
                assert(d > 0);
            }
            assert(similar_enough(b.0, b.1) <==> exists|k: int|
                0 <= k < r.len() && similar_enough(sim_num(#[trigger] r[k], c), sim_den(r[k], c))) by {
                if similar_enough(b.0, b.1) {
                    let k = choose|k: int|
                        0 <= k < rest.len() && similar_enough(
                            sim_num(#[trigger] rest[k], c),
                            sim_den(rest[k], c),
                        );
                    assert(similar_enough(sim_num(r[k], c), sim_den(r[k], c)));
                } else {
                    if exists|k: int|
                        0 <= k < r.len() && similar_enough(
                            sim_num(#[trigger] r[k], c),
                            sim_den(r[k], c),
                        ) {
                        let k = choose|k: int|
                            0 <= k < r.len() && similar_enough(
                                sim_num(#[trigger] r[k], c),
                                sim_den(r[k], c),
                            );
                        if k < r.len() - 1 {
                            assert(similar_enough(sim_num(rest[k], c), sim_den(rest[k], c)));
                        } else {
                            lemma_frac_ge_keeps_similar(p.0, p.1, n, d);
                        }
                    }
                }
            }
        }
    }
}

/// A duplicate-free sequence whose elements all come from another
/// duplicate-free sequence is no longer than it.
proof fn lemma_unique_subset_len<A>(a: Seq<A>, k: Seq<A>)
    requires
        a.no_duplicates(),
        k.no_duplicates(),
        forall|x: A| a.contains(x) ==> k.contains(x),
    ensures
        a.len() <= k.len(),
{
    a.unique_seq_to_set();
    k.unique_seq_to_set();
    assert(a.to_set().subset_of(k.to_set())) by {
        assert forall|x: A| a.to_set().contains(x) implies k.to_set().contains(x) by {
            assert(a.contains(x));
        }
    }
    vstd::set_lib::lemma_len_subset(a.to_set(), k.to_set());
}

/// Mathematical value of a [`Scored`] candidate.
pub ghost struct ScoredView {
    pub event: EventView,
    pub num: int,
    pub den: int,
}

/// A candidate event together with its best similarity against the user's
/// events, kept as an exact fraction.
pub struct Scored {
    pub event: Event,
    pub num: usize,
    pub den: usize,
}

impl View for Scored {
    type V = ScoredView;

    open spec fn view(&self) -> ScoredView {
        ScoredView { event: self.event@, num: self.num as int, den: self.den as int }
    }
}

impl DeepView for Scored {
    type V = ScoredView;

    open spec fn deep_view(&self) -> ScoredView {
        self.view()
    }
}

/// The candidates a scored list carries, in order.
pub open spec fn scored_events(s: Seq<ScoredView>) -> Seq<EventView> {
    s.map_values(|x: ScoredView| x.event)
}

/// Scores never increase along the list.
pub open spec fn sorted_scores(s: Seq<ScoredView>) -> bool {
    forall|i: int, j: int|
        0 <= i < j < s.len() ==> frac_ge(
            (#[trigger] s[i]).num,
            s[i].den,
            (#[trigger] s[j]).num,
            s[j].den,
        )
}

impl UserEventRepository {
    /// Compare two similarity fractions with positive denominators.
    fn frac_gt_exec(n1: usize, d1: usize, n2: usize, d2: usize) -> (r: bool)
        ensures
            r == frac_gt(n1 as int, d1 as int, n2 as int, d2 as int),
    {
        proof {
            vstd::arithmetic::mul::lemma_mul_upper_bound(
                n1 as int,
                0xffff_ffff_ffff_ffff,
                d2 as int,
                0xffff_ffff_ffff_ffff,
            );
            vstd::arithmetic::mul::lemma_mul_upper_bound(
                n2 as int,
                0xffff_ffff_ffff_ffff,
                d1 as int,
                0xffff_ffff_ffff_ffff,
            );
        }
        (n1 as u128) * (d2 as u128) > (n2 as u128) * (d1 as u128)
    }

    /// How many of `a`'s entries also stand in `b`.
    fn count_in(a: &Vec<String>, b: &Vec<String>) -> (n: usize)
        ensures
            n as int == inter_count(a.deep_view(), b.deep_view()),
            n <= a.len(),
    {
        let ghost av = a.deep_view();
        let ghost bv = b.deep_view();
        let ghost pred = |k: Seq<char>| bv.contains(k);
        let mut n: usize = 0;
        let mut i: usize = 0;
        while i < a.len()
            invariant
                0 <= i <= a.len(),
                n <= i,
                av == a.deep_view(),
                bv == b.deep_view(),
                pred == (|k: Seq<char>| bv.contains(k)),
                n as int == av.take(i as int).filter(pred).len(),
            decreases a.len() - i,
        {
            proof {
                assert(av[i as int] == a@[i as int]@);
                lemma_filter_take_step(av, pred, i as int);
            }
            if crate::strutil::vec_contains_str(b, a[i].as_str()) {
                n += 1;
            }
            i += 1;
        }
        proof {
            lemma_take_all(av);
        }
        n
    }

    /// How many of `b`'s entries are missing from `a`.
    fn count_missing(a: &Vec<String>, b: &Vec<String>) -> (n: usize)
        ensures
            n as int == missing_count(a.deep_view(), b.deep_view()),
            n <= b.len(),
    {
        let ghost av = a.deep_view();
        let ghost bv = b.deep_view();
        let ghost pred = |k: Seq<char>| !av.contains(k);
        let mut n: usize = 0;
        let mut i: usize = 0;
        while i < b.len()
            invariant
                0 <= i <= b.len(),
                n <= i,
                av == a.deep_view(),
                bv == b.deep_view(),
                pred == (|k: Seq<char>| !av.contains(k)),
                n as int == bv.take(i as int).filter(pred).len(),
            decreases b.len() - i,
        {
            proof {
                assert(bv[i as int] == b@[i as int]@);
                lemma_filter_take_step(bv, pred, i as int);
            }
            if !crate::strutil::vec_contains_str(a, b[i].as_str()) {
                n += 1;
            }
            i += 1;
        }
        proof {
            lemma_take_all(bv);
        }
        n
    }

    /// The similarity fraction of two stored events: intersection size over
    /// union size of their keyword sets.
    fn sim_counts(store: &GraphStore, e: &Event, c: &Event) -> (res: (usize, usize))
        requires
            wf(store@),
            store@.events.contains(e@),
            store@.events.contains(c@),
        ensures
            res.0 as int == sim_num(e@, c@),
            res.1 as int == sim_den(e@, c@),
            res.0 <= res.1,
    {
        proof {
            let i = choose|i: int| 0 <= i < store@.events.len() && store@.events[i] == e@;
            assert(event_entry_wf(store@, store@.events[i]));
            let j = choose|j: int| 0 <= j < store@.events.len() && store@.events[j] == c@;
            assert(event_entry_wf(store@, store@.events[j]));
        }
        let inter = Self::count_in(&e.keywords, &c.keywords);
        let extra = Self::count_missing(&e.keywords, &c.keywords);
        proof {
            let av = e@.keywords;
            let cv = c@.keywords;
            let pred = |k: Seq<char>| !av.contains(k);
            let f = cv.filter(pred);
            assert(missing_count(av, cv) == f.len());
            assert(extra as int == f.len());
            lemma_filter_no_duplicates(cv, pred);
            let joined = av + f;
            assert(joined.no_duplicates()) by {
                assert forall|x: int, y: int|
                    0 <= x < joined.len() && 0 <= y < joined.len() && x != y implies joined[x]
                    != joined[y] by {
                    if x < av.len() && y >= av.len() {
                        assert(joined[x] == av[x]);
                        assert(joined[y] == f[y - av.len()]);
                        assert(f.contains(f[y - av.len()]));
                        lemma_filter_subset(cv, pred, f[y - av.len()]);
                        assert(av.contains(av[x]));
                    } else if x >= av.len() && y < av.len() {
                        assert(joined[y] == av[y]);
                        assert(joined[x] == f[x - av.len()]);
                        assert(f.contains(f[x - av.len()]));
                        lemma_filter_subset(cv, pred, f[x - av.len()]);
                        assert(av.contains(av[y]));
                    } else if x < av.len() && y < av.len() {
                        assert(joined[x] == av[x] && joined[y] == av[y]);
                    } else {
                        assert(joined[x] == f[x - av.len()] && joined[y] == f[y - av.len()]);
                    }
                }
            }
            assert forall|x: Seq<char>|
                joined.contains(x) implies store@.keywords.contains(x) by {
                let w = choose|w: int| 0 <= w < joined.len() && joined[w] == x;
                if w < av.len() {
                    assert(av[w] == x);
                } else {
                    assert(f[w - av.len()] == x);
                    assert(f.contains(x));
                    lemma_filter_subset(cv, pred, x);
                }
            }
            lemma_unique_subset_len(joined, store@.keywords);
            assert(av.len() + f.len() == joined.len());
        }
        let cap = store.keywords.len();
        proof {
            assert(store@.keywords.len() == cap as int);
            assert(e@.keywords.len() + missing_count(e@.keywords, c@.keywords) <= cap as int);
        }
        let den = e.keywords.len() + extra;
        (inter, den)
    }

    /// The best similarity the candidate reaches against the user's events.
    fn best_score(store: &GraphStore, regs: &Vec<Event>, c: &Event) -> (res: (usize, usize))
        requires
            wf(store@),
            forall|j: int|
                0 <= j < regs.deep_view().len() ==> store@.events.contains(
                    #[trigger] regs.deep_view()[j],
                ),
            store@.events.contains(c@),
        ensures
            res.0 as int == best_pair(regs.deep_view(), c@).0,
            res.1 as int == best_pair(regs.deep_view(), c@).1,
            res.1 >= 1,
    {
        let ghost regsv = regs.deep_view();
        let mut bn: usize = 0;
        let mut bd: usize = 1;
        let mut j: usize = 0;
        while j < regs.len()
            invariant
                0 <= j <= regs.len(),
                regsv == regs.deep_view(),
                wf(store@),
                forall|k: int|
                    0 <= k < regsv.len() ==> store@.events.contains(#[trigger] regsv[k]),
                store@.events.contains(c@),
                bd >= 1,
                (bn as int, bd as int) == best_pair(regsv.take(j as int), c@),
            decreases regs.len() - j,
        {
            proof {
                assert(regsv[j as int] == regs@[j as int].deep_view());
                assert(regsv.take(j + 1).drop_last() =~= regsv.take(j as int));
                assert(regsv.take(j + 1).last() == regsv[j as int]);
            }
            let (n, d) = Self::sim_counts(store, &regs[j], c);
            if Self::frac_gt_exec(n, d, bn, bd) {
                // A pair can only beat the running best with a nonzero
                // numerator, so its denominator is positive too.
                proof {
                    if n == 0 {
                        assert(n as int * bd as int == 0) by (nonlinear_arith)
                            requires
                                n == 0,
                        ;
                        assert(bn as int * d as int >= 0) by (nonlinear_arith)
                            requires
                                bn >= 0,
                                d >= 0,
                        ;
                    }
                }
                bn = n;
                bd = d;
            }
            j += 1;
        }
        proof {
            lemma_take_all(regsv);
        }
        (bn, bd)
    }

    /// Put a fresh scored candidate at its place in a list ordered by
    /// descending score; equal scores keep their arrival order.
    fn insert_scored(picked: &mut Vec<Scored>, sc: Scored)
        requires
            sorted_scores(old(picked).deep_view()),
            forall|k: int|
                0 <= k < old(picked).deep_view().len() ==> (#[trigger] old(picked).deep_view()[k]).den
                    > 0,
            sc@.den > 0,
            scored_events(old(picked).deep_view()).no_duplicates(),
            !scored_events(old(picked).deep_view()).contains(sc@.event),
        ensures
            final(picked).deep_view().len() == old(picked).deep_view().len() + 1,
            sorted_scores(final(picked).deep_view()),
            forall|k: int|
                0 <= k < final(picked).deep_view().len() ==> (#[trigger] final(picked).deep_view()[k]
                    == sc@ || old(picked).deep_view().contains(final(picked).deep_view()[k])),
            forall|c: EventView|
                scored_events(final(picked).deep_view()).contains(c) <==> (scored_events(
                    old(picked).deep_view(),
                ).contains(c) || c == sc@.event),
            scored_events(final(picked).deep_view()).no_duplicates(),
    {
        let ghost pre = picked.deep_view();
        let ghost scv = sc@;
        let mut i: usize = 0;
        while i < picked.len()
            invariant
                0 <= i <= picked.len(),
                pre == picked.deep_view(),
                scv == sc@,
                sorted_scores(pre),
                forall|k: int| 0 <= k < pre.len() ==> (#[trigger] pre[k]).den > 0,
                scv.den > 0,
                forall|j: int| 0 <= j < i ==> frac_ge((#[trigger] pre[j]).num, pre[j].den, scv.num, scv.den),
            ensures
                0 <= i <= picked.len(),
                pre == picked.deep_view(),
                forall|j: int| 0 <= j < i ==> frac_ge((#[trigger] pre[j]).num, pre[j].den, scv.num, scv.den),
                i < pre.len() ==> frac_gt(scv.num, scv.den, pre[i as int].num, pre[i as int].den),
            decreases picked.len() - i,
        {
            let p = &picked[i];
            if Self::frac_gt_exec(sc.num, sc.den, p.num, p.den) {
                proof {
                    assert(pre[i as int] == picked@[i as int].deep_view());
                }
                break;
            }
            proof {
                assert(pre[i as int] == picked@[i as int].deep_view());
                assert(frac_ge(pre[i as int].num, pre[i as int].den, scv.num, scv.den));
            }
            i += 1;
        }
        let ghost pos = i as int;
        picked.insert(i, sc);
        proof {
            let post = picked.deep_view();
            assert(post =~= pre.insert(pos, scv));
            assert(post[pos] == scv);
            assert(forall|k: int| 0 <= k < pos ==> #[trigger] post[k] == pre[k]);
            assert(forall|k: int| pos < k < post.len() ==> #[trigger] post[k] == pre[k - 1]);
            // Everything from the insertion point on scores strictly below
            // the new entry.
            assert forall|k: int| pos <= k < pre.len() implies frac_ge(
                scv.num,
                scv.den,
                (#[trigger] pre[k]).num,
                pre[k].den,
            ) by {
                if pos < pre.len() {
                    if k == pos {
                        assert(frac_gt(scv.num, scv.den, pre[pos].num, pre[pos].den));
                    } else {
                        assert(frac_ge(pre[pos].num, pre[pos].den, pre[k].num, pre[k].den));
                        lemma_frac_ge_trans(
                            scv.num,
                            scv.den,
                            pre[pos].num,
                            pre[pos].den,
                            pre[k].num,
                            pre[k].den,
                        );
                    }
                }
            }
            assert forall|a: int, b: int| 0 <= a < b < post.len() implies frac_ge(
                (#[trigger] post[a]).num,
                post[a].den,
                (#[trigger] post[b]).num,
                post[b].den,
            ) by {
                if b < pos {
                } else if a < pos && b == pos {
                } else if a < pos && b > pos {
                    assert(post[a] == pre[a]);
                    assert(post[b] == pre[b - 1]);
                    if b - 1 == a {
                        // impossible: b - 1 >= pos > a
                    }
                    assert(frac_ge(pre[a].num, pre[a].den, pre[b - 1].num, pre[b - 1].den));
                } else if a == pos && b > pos {
                    assert(post[b] == pre[b - 1]);
                    assert(frac_ge(scv.num, scv.den, pre[b - 1].num, pre[b - 1].den));
                } else {
                    assert(post[a] == pre[a - 1]);
                    assert(post[b] == pre[b - 1]);
                }
            }
            assert forall|c: EventView|
                scored_events(post).contains(c) implies (scored_events(pre).contains(c) || c
                == scv.event) by {
                let k = choose|k: int|
                    0 <= k < scored_events(post).len() && scored_events(post)[k] == c;
                assert(scored_events(post)[k] == post[k].event);
                if k < pos {
                    assert(scored_events(pre)[k] == c);
                    assert(scored_events(pre).contains(c));
                } else if k > pos {
                    assert(scored_events(pre)[k - 1] == c);
                    assert(scored_events(pre).contains(c));
                }
            }
            assert forall|c: EventView|
                (scored_events(pre).contains(c) || c == scv.event) implies scored_events(
                post,
            ).contains(c) by {
                if scored_events(pre).contains(c) {
                    let k = choose|k: int|
                        0 <= k < scored_events(pre).len() && scored_events(pre)[k] == c;
                    if k < pos {
                        assert(scored_events(post)[k] == c);
                    } else {
                        assert(scored_events(post)[k + 1] == c);
                    }
                } else {
                    assert(scored_events(post)[pos] == c);
                }
            }
            assert forall|x: int, y: int|
                0 <= x < scored_events(post).len() && 0 <= y < scored_events(post).len() && x
                    != y implies scored_events(post)[x] != scored_events(post)[y] by {
                let ex = scored_events(post)[x];
                let ey = scored_events(post)[y];
                assert(ex == post[x].event && ey == post[y].event);
                if x != pos && y != pos {
                    let x0 = if x < pos { x } else { x - 1 };
                    let y0 = if y < pos { y } else { y - 1 };
                    assert(scored_events(pre)[x0] == ex);
                    assert(scored_events(pre)[y0] == ey);
                } else if x == pos {
                    let y0 = if y < pos { y } else { y - 1 };
                    assert(scored_events(pre)[y0] == ey);
                    assert(scored_events(pre).contains(ey));
                } else {
                    let x0 = if x < pos { x } else { x - 1 };
                    assert(scored_events(pre)[x0] == ex);
                    assert(scored_events(pre).contains(ex));
                }
            }
        }
    }

    /// Recommend future events by keyword similarity: a candidate qualifies
    /// when it starts strictly after `now`, the user is not registered to it,
    /// and its Jaccard similarity against some event of the user exceeds one
    /// half.  Each qualifying event appears once, ordered by its best
    /// similarity, highest first; equal scores keep store order.
    pub fn recommend_events_for_user_based_on_events_similarity(
        store: &GraphStore,
        user_name: &str,
        now: &str,
    ) -> (r: Result<Vec<Event>, RepoError>)
        requires
            wf(store@),
        ensures
            match r {
                Ok(v) => recommendation_ok(store@, user_name@, now@, v.deep_view()),
                Err(_) => false,
            },
    {
        let ghost sv = store@;
        let ghost uv = user_name@;
        let ghost nv = now@;
        let regs = match Self::find_all_events_of_user(store, user_name) {
            Ok(v) => v,
            Err(e) => {
                return Err(e);
            },
        };
        let ghost regsv = regs.deep_view();
        proof {
            assert(regsv == regs_of(sv, uv));
            assert forall|j: int|
                0 <= j < regsv.len() implies sv.events.contains(#[trigger] regsv[j]) by {
                assert(regsv.contains(regsv[j]));
                lemma_filter_subset(sv.events, |e: EventView| registered(sv, uv, e.id), regsv[j]);
            }
        }
        let mut picked: Vec<Scored> = Vec::new();
        let mut i: usize = 0;
        while i < store.events.len()
            invariant
                0 <= i <= store.events.len(),
                sv == store@,
                uv == user_name@,
                nv == now@,
                wf(sv),
                regsv == regs.deep_view(),
                regsv == regs_of(sv, uv),
                forall|j: int| 0 <= j < regsv.len() ==> sv.events.contains(#[trigger] regsv[j]),
                sorted_scores(picked.deep_view()),
                forall|k: int|
                    0 <= k < picked.deep_view().len() ==> {
                        let p = #[trigger] picked.deep_view()[k];
                        &&& p.den > 0
                        &&& p.num == best_pair(regsv, p.event).0
                        &&& p.den == best_pair(regsv, p.event).1
                        &&& recommended(sv, uv, nv, p.event)
                    },
                forall|c: EventView|
                    #[trigger] scored_events(picked.deep_view()).contains(c) <==> (sv.events.take(
                        i as int,
                    ).contains(c) && lex_lt(nv, c.start_datetime) && !registered(sv, uv, c.id)
                        && similar_enough(best_pair(regsv, c).0, best_pair(regsv, c).1)),
                scored_events(picked.deep_view()).no_duplicates(),
            decreases store.events.len() - i,
        {
            let ghost cw = sv.events[i as int];
            let ghost prepicked = picked.deep_view();
            proof {
                assert(sv.events[i as int] == store.events@[i as int].deep_view());
                assert(sv.events.take(i + 1) =~= sv.events.take(i as int).push(cw));
                assert(sv.events.take(i + 1).contains(cw)) by {
                    assert(sv.events.take(i + 1)[i as int] == cw);
                }
            }
            let c = &store.events[i];
            let mut qualifies = false;
            if str_lt(now, c.start_datetime.as_str()) {
                if Self::index_of_reg(store, user_name, c.id).is_none() {
                    let (bn, bd) = Self::best_score(store, &regs, c);
                    if bn > bd / 2 {
                        proof {
                            assert(2 * (bn as int) > bd as int);
                            assert(sv.events.contains(cw)) by {
                                assert(sv.events[i as int] == cw);
                            }
                            assert(recommended(sv, uv, nv, cw));
                            // A candidate holds a fresh event value: ids are
                            // unique, so it cannot be in the prefix already.
                            assert(!scored_events(prepicked).contains(cw)) by {
                                if scored_events(prepicked).contains(cw) {
                                    assert(sv.events.take(i as int).contains(cw));
                                    let j = choose|j: int|
                                        0 <= j < i && sv.events.take(i as int)[j] == cw;
                                    assert(sv.events[j] == cw);
                                    assert(sv.events[j].id == sv.events[i as int].id);
                                }
                            }
                        }
                        let sc = Scored { event: c.clone(), num: bn, den: bd };
                        proof {
                            assert(sc@.event == cw);
                        }
                        Self::insert_scored(&mut picked, sc);
                        qualifies = true;
                        proof {
                            assert forall|cx: EventView|
                                #[trigger] scored_events(picked.deep_view()).contains(cx)
                                    <==> (sv.events.take(i + 1).contains(cx) && lex_lt(
                                    nv,
                                    cx.start_datetime,
                                ) && !registered(sv, uv, cx.id) && similar_enough(
                                    best_pair(regsv, cx).0,
                                    best_pair(regsv, cx).1,
                                )) by {
                                lemma_contains_push(sv.events.take(i as int), cw, cx);
                            }
                            assert forall|k: int|
                                0 <= k < picked.deep_view().len() implies {
                                    let p = #[trigger] picked.deep_view()[k];
                                    &&& p.den > 0
                                    &&& p.num == best_pair(regsv, p.event).0
                                    &&& p.den == best_pair(regsv, p.event).1
                                    &&& recommended(sv, uv, nv, p.event)
                                } by {
                                let p = picked.deep_view()[k];
                                if p == sc@ {
                                } else {
                                    assert(prepicked.contains(p));
                                    let k0 = choose|k0: int|
                                        0 <= k0 < prepicked.len() && prepicked[k0] == p;
                                }
                            }
                        }
                    }
                }
            }
            if !qualifies {
                proof {
                    assert(picked.deep_view() == prepicked);
                    assert forall|cx: EventView|
                        #[trigger] scored_events(picked.deep_view()).contains(cx) <==> (
                        sv.events.take(i + 1).contains(cx) && lex_lt(nv, cx.start_datetime)
                            && !registered(sv, uv, cx.id) && similar_enough(
                            best_pair(regsv, cx).0,
                            best_pair(regsv, cx).1,
                        )) by {
                        lemma_contains_push(sv.events.take(i as int), cw, cx);
                        if cx == cw {
                            if lex_lt(nv, cw.start_datetime) && !registered(sv, uv, cw.id) {
                                // The candidate was scored and fell short.
                                assert(!similar_enough(best_pair(regsv, cw).0, best_pair(regsv, cw).1));
                            }
                        }
                    }
                }
            }
            i += 1;
        }
        proof {
            lemma_take_all(sv.events);
        }
        let mut out: Vec<Event> = Vec::new();
        let mut k: usize = 0;
        let ghost pd = picked.deep_view();
        while k < picked.len()
            invariant
                0 <= k <= picked.len(),
                pd == picked.deep_view(),
                out.deep_view() =~= scored_events(pd).take(k as int),
            decreases picked.len() - k,
        {
            let ghost prev = out.deep_view();
            proof {
                assert(pd[k as int] == picked@[k as int].deep_view());
            }
            out.push(picked[k].event.clone());
            proof {
                assert(out.deep_view() =~= prev.push(pd[k as int].event));
                assert(scored_events(pd).take(k + 1) =~= scored_events(pd).take(k as int).push(
                    scored_events(pd)[k as int],
                ));
            }
            k += 1;
        }
        proof {
            lemma_take_all(scored_events(pd));
            assert(out.deep_view() == scored_events(pd));
            assert forall|c: EventView|
                recommended(sv, uv, nv, c) implies out.deep_view().contains(c) by {
                assert(sv.events.take(sv.events.len() as int) == sv.events);
                assert(scored_events(pd).contains(c));
            }
            assert forall|k2: int|
                0 <= k2 < out.deep_view().len() implies recommended(
                sv,
                uv,
                nv,
                #[trigger] out.deep_view()[k2],
            ) by {
                assert(out.deep_view()[k2] == pd[k2].event);
            }
            assert forall|i2: int, j2: int|
                0 <= i2 < j2 < out.deep_view().len() implies frac_ge(
                best_pair(regs_of(sv, uv), #[trigger] out.deep_view()[i2]).0,
                best_pair(regs_of(sv, uv), out.deep_view()[i2]).1,
                best_pair(regs_of(sv, uv), #[trigger] out.deep_view()[j2]).0,
                best_pair(regs_of(sv, uv), out.deep_view()[j2]).1,
            ) by {
                assert(out.deep_view()[i2] == pd[i2].event);
                assert(out.deep_view()[j2] == pd[j2].event);
                assert(frac_ge(pd[i2].num, pd[i2].den, pd[j2].num, pd[j2].den));
            }
        }
        Ok(out)
    }
}

} // verus!
