//! The `Event` aggregate: an event node together with its keyword set, and
//! the submitted form of an event (`EventUpdate`) with its validation rule.

use vstd::prelude::*;

use crate::strutil::is_blank;
use crate::strutil::str_is_blank;

verus! {

/// Mathematical value of an [`Event`]: plain sequences in place of heap
/// strings.  `keywords` keeps the aggregation order; contracts that care only
/// about the set of keywords use `keyword_set`.
pub ghost struct EventView {
    pub id: u16,
    pub name: Seq<char>,
    pub start_datetime: Seq<char>,
    pub keywords: Seq<Seq<char>>,
}

impl EventView {
    /// The keyword names of the event, as a set.
    pub open spec fn keyword_set(self) -> Set<Seq<char>> {
        self.keywords.to_set()
    }
}

/// An event node as returned by the store: its unique id, name, start time
/// and the names of the keyword nodes it has an edge to.
///
/// Start times are rendered in a fixed-width sortable form (ISO-8601 UTC), so
/// chronological order coincides with lexicographic order on the text; the
/// contracts compare start times with `strutil::lex_lt`.
#[derive(Debug)]
pub struct Event {
    pub id: u16,
    pub name: String,
    pub start_datetime: String,
    pub keywords: Vec<String>,
}

impl View for Event {
    type V = EventView;

    open spec fn view(&self) -> EventView {
        EventView {
            id: self.id,
            name: self.name@,
            start_datetime: self.start_datetime@,
            keywords: self.keywords.deep_view(),
        }
    }
}

impl DeepView for Event {
    type V = EventView;

    open spec fn deep_view(&self) -> EventView {
        self.view()
    }
}

impl Clone for Event {
    fn clone(&self) -> (res: Self)
        ensures
            res@ == self@,
    {
        let res = Event {
            id: self.id,
            name: self.name.clone(),
            start_datetime: self.start_datetime.clone(),
            keywords: clone_keywords(&self.keywords),
        };
        proof {
            assert(res@.keywords =~= self@.keywords);
        }
        res
    }
}

/// Clone a keyword list, preserving every element exactly.
pub fn clone_keywords(v: &Vec<String>) -> (res: Vec<String>)
    ensures
        res@ == v@,
{
    let mut res: Vec<String> = Vec::new();
    let mut i: usize = 0;
    while i < v.len()
        invariant
            0 <= i <= v.len(),
            res@ =~= v@.take(i as int),
        decreases v.len() - i,
    {
        res.push(v[i].clone());
        i += 1;
    }
    proof {
        assert(res@ =~= v@);
    }
    res
}

/// Mathematical value of an [`EventUpdate`].
pub ghost struct EventUpdateView {
    pub name: Seq<char>,
    pub start_datetime: Seq<char>,
    pub keywords: Seq<Seq<char>>,
}

/// The submitted fields for creating or editing an event.  The id is never
/// taken from the client: `add` assigns it and `edit` keeps it.
#[derive(Debug)]
pub struct EventUpdate {
    pub name: String,
    pub keywords: Vec<String>,
    pub start_datetime: String,
}

impl View for EventUpdate {
    type V = EventUpdateView;

    open spec fn view(&self) -> EventUpdateView {
        EventUpdateView {
            name: self.name@,
            start_datetime: self.start_datetime@,
            keywords: self.keywords.deep_view(),
        }
    }
}

/// A submission is valid when the name and start time hold a non-whitespace
/// character and at least one keyword is given.
pub open spec fn valid_update(u: EventUpdateView) -> bool {
    &&& !is_blank(u.name)
    &&& !is_blank(u.start_datetime)
    &&& u.keywords.len() > 0
}

/// The reason an invalid submission is rejected with: the first failing check
/// names its field.
pub open spec fn validation_message(u: EventUpdateView) -> Seq<char> {
    if is_blank(u.name) {
        "Event name is required"@
    } else if is_blank(u.start_datetime) {
        "Start datetime is required"@
    } else {
        "At least one keyword is required"@
    }
}

impl EventUpdate {
    /// Check the submission: a blank name, then a blank start time, then an
    /// empty keyword list are rejected, in that order, each with its message.
    pub fn validate(&self) -> (r: Result<(), String>)
        ensures
            r is Ok <==> valid_update(self@),
            match r {
                Ok(()) => true,
                Err(m) => m@ == validation_message(self@),
            },
    {
        if str_is_blank(self.name.as_str()) {
            return Err("Event name is required".to_owned());
        }
        if str_is_blank(self.start_datetime.as_str()) {
            return Err("Start datetime is required".to_owned());
        }
        if self.keywords.len() == 0 {
            return Err("At least one keyword is required".to_owned());
        }
        Ok(())
    }
}

impl Event {
    /// Human-readable rendering of the event.
    ///
    /// Relies on std's `format!` to lay the fields out.
    #[verifier::external_body]
    pub fn display(&self) -> String {
        format!(
            "Event ID: {}\nName: {}\nStart: {}\nKeywords: {:?}",
            self.id, self.name, self.start_datetime, self.keywords
        )
    }
}

} // verus!
