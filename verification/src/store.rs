//! The graph store model: one explicit value holding every node and edge the
//! service works with.  The repositories read and mutate a `GraphStore`; its
//! well-formedness predicate `wf` captures the graph invariants (unique event
//! ids, interned keyword nodes, unique user names, no parallel registration
//! edges, edges only between existing endpoints).

use vstd::prelude::*;

use crate::models::event::Event;
use crate::models::event::EventView;
use crate::models::user::User;
use crate::strutil::is_blank;
use crate::strutil::lex_lt;
use crate::strutil::lemma_lex_lt_trichotomy;
use crate::strutil::lemma_lex_lt_trans;
use crate::strutil::str_eq;
use crate::strutil::str_lt;

verus! {

/// Mathematical value of a registration edge.
pub ghost struct RegView {
    pub user: Seq<char>,
    pub event_id: u16,
}

/// A `REGISTERED_TO` edge from a user to an event.  The edge carries no
/// payload; its existence is the whole fact.
#[derive(Debug)]
pub struct Registration {
    pub user_name: String,
    pub event_id: u16,
}

impl View for Registration {
    type V = RegView;

    open spec fn view(&self) -> RegView {
        RegView { user: self.user_name@, event_id: self.event_id }
    }
}

impl DeepView for Registration {
    type V = RegView;

    open spec fn deep_view(&self) -> RegView {
        self.view()
    }
}

impl Clone for Registration {
    fn clone(&self) -> (res: Self)
        ensures
            res@ == self@,
    {
        Registration { user_name: self.user_name.clone(), event_id: self.event_id }
    }
}

/// Mathematical value of the whole graph.
pub ghost struct StoreView {
    pub events: Seq<EventView>,
    pub keywords: Seq<Seq<char>>,
    pub users: Seq<Seq<char>>,
    pub regs: Seq<RegView>,
}

/// The property graph: event nodes with their `HAS` edges aggregated into
/// keyword lists, the interned keyword nodes, the user nodes (kept sorted by
/// name, the order the store lists them in), and the registration edges.
#[derive(Debug)]
pub struct GraphStore {
    pub events: Vec<Event>,
    pub keywords: Vec<String>,
    pub users: Vec<User>,
    pub registrations: Vec<Registration>,
}

impl View for GraphStore {
    type V = StoreView;

    open spec fn view(&self) -> StoreView {
        StoreView {
            events: self.events.deep_view(),
            keywords: self.keywords.deep_view(),
            users: self.users.deep_view(),
            regs: self.registrations.deep_view(),
        }
    }
}

/// There is an event node with this id.
pub open spec fn has_event(s: StoreView, id: u16) -> bool {
    exists|i: int| 0 <= i < s.events.len() && s.events[i].id == id
}

/// The index of the event node with this id (meaningful when `has_event`).
pub open spec fn event_index(s: StoreView, id: u16) -> int {
    choose|i: int| 0 <= i < s.events.len() && s.events[i].id == id
}

/// The event node with this id (meaningful when `has_event`).
pub open spec fn event_at(s: StoreView, id: u16) -> EventView {
    s.events[event_index(s, id)]
}

/// There is a user node with this name.
pub open spec fn has_user(s: StoreView, name: Seq<char>) -> bool {
    s.users.contains(name)
}

/// There is a keyword node with this name.
pub open spec fn has_keyword(s: StoreView, kw: Seq<char>) -> bool {
    s.keywords.contains(kw)
}

/// There is a registration edge from this user to this event.
pub open spec fn registered(s: StoreView, name: Seq<char>, id: u16) -> bool {
    s.regs.contains(RegView { user: name, event_id: id })
}

/// Every event node is a valid aggregate whose keywords are interned nodes.
/// An event may carry no keywords at all: this system only creates events
/// with at least one, but the left-outer aggregation returns a keyword-less
/// node with an empty set rather than refusing it.
pub open spec fn event_entry_wf(s: StoreView, e: EventView) -> bool {
    &&& !is_blank(e.name)
    &&& !is_blank(e.start_datetime)
    &&& e.keywords.no_duplicates()
    &&& forall|k: int| 0 <= k < e.keywords.len() ==> has_keyword(s, #[trigger] e.keywords[k])
}

/// Well-formedness of the graph:
/// - event ids are unique, and each event is a valid aggregate;
/// - keyword nodes are interned (one node per name);
/// - user names are unique and listed in ascending name order;
/// - registration edges are unique per (user, event) pair and both endpoints
///   exist.
pub open spec fn wf(s: StoreView) -> bool {
    &&& forall|i: int, j: int|
        0 <= i < s.events.len() && 0 <= j < s.events.len() && #[trigger] s.events[i].id
            == #[trigger] s.events[j].id ==> i == j
    &&& forall|i: int| 0 <= i < s.events.len() ==> event_entry_wf(s, #[trigger] s.events[i])
    &&& s.keywords.no_duplicates()
    &&& forall|i: int, j: int|
        0 <= i < j < s.users.len() ==> lex_lt(#[trigger] s.users[i], #[trigger] s.users[j])
    &&& s.regs.no_duplicates()
    &&& forall|i: int|
        0 <= i < s.regs.len() ==> has_user(s, (#[trigger] s.regs[i]).user) && has_event(
            s,
            s.regs[i].event_id,
        )
}

/// In a well-formed store, the chosen index of a present id is the only one
/// that carries it.
pub proof fn lemma_event_index_unique(s: StoreView, id: u16, i: int)
    requires
        wf(s),
        0 <= i < s.events.len(),
        s.events[i].id == id,
    ensures
        event_index(s, id) == i,
        event_at(s, id) == s.events[i],
        has_event(s, id),
{
    assert(has_event(s, id));
    let j = event_index(s, id);
    assert(0 <= j < s.events.len() && s.events[j].id == id);
}

impl GraphStore {
    /// The empty graph.
    pub fn new() -> (s: GraphStore)
        ensures
            s@.events.len() == 0,
            s@.keywords.len() == 0,
            s@.users.len() == 0,
            s@.regs.len() == 0,
            wf(s@),
    {
        GraphStore {
            events: Vec::new(),
            keywords: Vec::new(),
            users: Vec::new(),
            registrations: Vec::new(),
        }
    }

    /// Record a user node.  User accounts are created outside this system;
    /// this is how the store learns of one.  Inserting keeps the name order;
    /// a name that is already present is left alone.
    pub fn add_user(&mut self, name: String) -> (added: bool)
        requires
            wf(old(self)@),
        ensures
            wf(final(self)@),
            final(self)@.events == old(self)@.events,
            final(self)@.keywords == old(self)@.keywords,
            final(self)@.regs == old(self)@.regs,
            added <==> !has_user(old(self)@, name@),
            has_user(final(self)@, name@),
            forall|u: Seq<char>| has_user(old(self)@, u) ==> has_user(final(self)@, u),
            forall|u: Seq<char>| has_user(final(self)@, u) ==> u == name@ || has_user(old(self)@, u),
            !added ==> final(self)@.users == old(self)@.users,
            added ==> final(self)@.users.len() == old(self)@.users.len() + 1,
    {
        let ghost pre = self@;
        let ghost nv = name@;
        let mut i: usize = 0;
        while i < self.users.len()
            invariant
                0 <= i <= self.users.len(),
                pre == old(self)@,
                nv == name@,
                wf(pre),
                self@ == pre,
                forall|j: int| 0 <= j < i ==> lex_lt(pre.users[j], nv),
            ensures
                0 <= i <= self.users.len(),
                self@ == pre,
                forall|j: int| 0 <= j < i ==> lex_lt(pre.users[j], nv),
                i < pre.users.len() ==> !lex_lt(pre.users[i as int], nv) && pre.users[i as int]
                    != nv,
            decreases self.users.len() - i,
        {
            if str_eq(self.users[i].name.as_str(), name.as_str()) {
                // The name is already a node.
                proof {
                    assert(pre.users[i as int] == self.users@[i as int].deep_view());
                }
                assert(pre.users[i as int] == nv);
                assert(has_user(pre, nv));
                return false;
            }
            if !str_lt(self.users[i].name.as_str(), name.as_str()) {
                break;
            }
            i += 1;
        }
        // Every user before position i is strictly below `name`, and every
        // one from i on is strictly above it, so the name is absent and i is
        // its sorted position.
        proof {
            assert forall|j: int|
                i <= j < pre.users.len() implies lex_lt(nv, pre.users[j]) by {
                lemma_lex_lt_trichotomy(pre.users[i as int], nv);
                if j > i {
                    assert(lex_lt(pre.users[i as int], pre.users[j]));
                    lemma_lex_lt_trans(nv, pre.users[i as int], pre.users[j]);
                }
            }
            assert forall|j: int| 0 <= j < pre.users.len() implies pre.users[j] != nv by {
                if j < i {
                    lemma_lex_lt_trichotomy(pre.users[j], nv);
                } else {
                    lemma_lex_lt_trichotomy(pre.users[j], nv);
                }
            }
            assert(!has_user(pre, nv));
        }
        let ghost pos = i as int;
        self.users.insert(i, User { name });
        proof {
            let post = self@;
            assert(post.users =~= pre.users.insert(pos, nv));
            assert(post.users[pos] == nv);
            assert forall|a: int, b: int| 0 <= a < b < post.users.len() implies lex_lt(
                post.users[a],
                post.users[b],
            ) by {
                if b < pos {
                } else if a < pos && b == pos {
                    assert(post.users[a] == pre.users[a]);
                } else if a < pos && b > pos {
                    assert(post.users[a] == pre.users[a]);
                    assert(post.users[b] == pre.users[b - 1]);
                    assert(lex_lt(pre.users[a], nv));
                    assert(lex_lt(nv, pre.users[b - 1]));
                    lemma_lex_lt_trans(pre.users[a], nv, pre.users[b - 1]);
                } else if a == pos {
                    assert(post.users[b] == pre.users[b - 1]);
                    assert(lex_lt(nv, pre.users[b - 1]));
                } else {
                    assert(post.users[a] == pre.users[a - 1]);
                    assert(post.users[b] == pre.users[b - 1]);
                }
            }
            assert(has_user(post, nv)) by {
                assert(post.users.contains(post.users[pos]));
            }
            assert forall|u: Seq<char>| has_user(pre, u) implies has_user(post, u) by {
                let j = choose|j: int| 0 <= j < pre.users.len() && pre.users[j] == u;
                if j < pos {
                    assert(post.users[j] == u);
                    assert(post.users.contains(u));
                } else {
                    assert(post.users[j + 1] == u);
                    assert(post.users.contains(u));
                }
            }
            assert forall|u: Seq<char>| has_user(post, u) implies u == nv || has_user(pre, u) by {
                let j = choose|j: int| 0 <= j < post.users.len() && post.users[j] == u;
                if j < pos {
                    assert(pre.users[j] == u);
                    assert(pre.users.contains(u));
                } else if j > pos {
                    assert(pre.users[j - 1] == u);
                    assert(pre.users.contains(u));
                }
            }
            assert(wf(post)) by {
                assert(post.events == pre.events);
                assert(post.keywords == pre.keywords);
                assert(post.regs == pre.regs);
                assert forall|k: int|
                    0 <= k < post.events.len() implies event_entry_wf(
                    post,
                    #[trigger] post.events[k],
                ) by {
                    assert(event_entry_wf(pre, pre.events[k]));
                }
                assert forall|k: int|
                    0 <= k < post.regs.len() implies has_user(post, (#[trigger] post.regs[k]).user)
                    && has_event(post, post.regs[k].event_id) by {
                    assert(has_user(pre, pre.regs[k].user));
                    assert(has_event(pre, pre.regs[k].event_id));
                }
            }
        }
        true
    }
}

} // verus!
