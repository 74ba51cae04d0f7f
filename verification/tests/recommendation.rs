use event_graph::models::event::EventUpdate;
use event_graph::repo::users_events::UserEventRepository;
use event_graph::store::GraphStore;

fn upd(name: &str, start: &str, kws: &[&str]) -> EventUpdate {
    EventUpdate {
        name: name.to_string(),
        keywords: kws.iter().map(|s| s.to_string()).collect(),
        start_datetime: start.to_string(),
    }
}

fn add(store: &mut GraphStore, name: &str, start: &str, kws: &[&str]) -> u16 {
    event_graph::repo::events::EventRepository::add(store, upd(name, start, kws))
        .unwrap()
        .id
}

const NOW: &str = "2025-01-01T00:00:00Z";

#[test]
fn recommend_uses_strict_one_half_threshold() {
    let mut store = GraphStore::new();
    store.add_user("alice".to_string());
    let e1 = add(&mut store, "E1", "2024-01-01T00:00:00Z", &["a", "b"]);
    // Jaccard to E1 is 2/3: recommended.
    add(&mut store, "E2", "2030-01-01T00:00:00Z", &["a", "b", "c"]);
    // Jaccard to E1 is exactly 1/2: not strictly above the threshold.
    add(&mut store, "E3", "2030-01-01T00:00:00Z", &["a"]);
    UserEventRepository::assign_user_to_event(&mut store, "alice", e1).unwrap();
    let recs =
        UserEventRepository::recommend_events_for_user_based_on_events_similarity(
            &store, "alice", NOW,
        )
        .unwrap();
    let names: Vec<&str> = recs.iter().map(|e| e.name.as_str()).collect();
    assert_eq!(names, vec!["E2"]);
}

#[test]
fn recommend_skips_past_and_registered_events() {
    let mut store = GraphStore::new();
    store.add_user("alice".to_string());
    let e1 = add(&mut store, "E1", "2024-01-01T00:00:00Z", &["a", "b"]);
    // Identical keywords but already over.
    add(&mut store, "Past", "2024-06-01T00:00:00Z", &["a", "b"]);
    // Identical keywords, future, but alice is already registered to it.
    let taken = add(&mut store, "Taken", "2030-01-01T00:00:00Z", &["a", "b"]);
    add(&mut store, "Fresh", "2030-02-01T00:00:00Z", &["a", "b"]);
    UserEventRepository::assign_user_to_event(&mut store, "alice", e1).unwrap();
    UserEventRepository::assign_user_to_event(&mut store, "alice", taken).unwrap();
    let recs =
        UserEventRepository::recommend_events_for_user_based_on_events_similarity(
            &store, "alice", NOW,
        )
        .unwrap();
    let names: Vec<&str> = recs.iter().map(|e| e.name.as_str()).collect();
    assert_eq!(names, vec!["Fresh"]);
}

#[test]
fn recommend_orders_by_similarity_descending() {
    let mut store = GraphStore::new();
    store.add_user("alice".to_string());
    let e1 = add(&mut store, "E1", "2024-01-01T00:00:00Z", &["a", "b", "c"]);
    // Jaccard 3/4 against E1.
    add(&mut store, "Close", "2030-01-01T00:00:00Z", &["a", "b", "c", "d"]);
    // Jaccard 3/5 against E1.
    add(
        &mut store,
        "Farther",
        "2030-01-02T00:00:00Z",
        &["a", "b", "c", "d", "e"],
    );
    UserEventRepository::assign_user_to_event(&mut store, "alice", e1).unwrap();
    let recs =
        UserEventRepository::recommend_events_for_user_based_on_events_similarity(
            &store, "alice", NOW,
        )
        .unwrap();
    let names: Vec<&str> = recs.iter().map(|e| e.name.as_str()).collect();
    assert_eq!(names, vec!["Close", "Farther"]);
}

#[test]
fn recommend_lists_a_candidate_once_despite_two_sources() {
    let mut store = GraphStore::new();
    store.add_user("alice".to_string());
    let e1 = add(&mut store, "E1", "2024-01-01T00:00:00Z", &["a", "b"]);
    let e2 = add(&mut store, "E2", "2024-02-01T00:00:00Z", &["a", "c"]);
    // Similar enough to both sources.
    add(&mut store, "Twice", "2030-01-01T00:00:00Z", &["a", "b", "c"]);
    UserEventRepository::assign_user_to_event(&mut store, "alice", e1).unwrap();
    UserEventRepository::assign_user_to_event(&mut store, "alice", e2).unwrap();
    let recs =
        UserEventRepository::recommend_events_for_user_based_on_events_similarity(
            &store, "alice", NOW,
        )
        .unwrap();
    let names: Vec<&str> = recs.iter().map(|e| e.name.as_str()).collect();
    assert_eq!(names, vec!["Twice"]);
}

#[test]
fn recommend_returns_empty_when_nothing_clears_the_threshold() {
    let mut store = GraphStore::new();
    store.add_user("alice".to_string());
    let e1 = add(&mut store, "E1", "2024-01-01T00:00:00Z", &["a", "b"]);
    add(&mut store, "Unrelated", "2030-01-01T00:00:00Z", &["x", "y"]);
    UserEventRepository::assign_user_to_event(&mut store, "alice", e1).unwrap();
    let recs =
        UserEventRepository::recommend_events_for_user_based_on_events_similarity(
            &store, "alice", NOW,
        )
        .unwrap();
    assert!(recs.is_empty());
}

#[test]
fn keyword_less_registered_event_does_not_disturb_recommendation() {
    let mut store = GraphStore::new();
    store.add_user("alice".to_string());
    // A registered event whose last keyword edge is gone: similarity against
    // it is an empty intersection over an empty union and never recommends.
    store.events.push(event_graph::models::event::Event {
        id: 100,
        name: "Bare".to_string(),
        start_datetime: "2024-01-01T00:00:00Z".to_string(),
        keywords: Vec::new(),
    });
    let e1 = add(&mut store, "E1", "2024-01-01T00:00:00Z", &["a", "b"]);
    add(&mut store, "Near", "2030-01-01T00:00:00Z", &["a", "b", "c"]);
    UserEventRepository::assign_user_to_event(&mut store, "alice", 100).unwrap();
    UserEventRepository::assign_user_to_event(&mut store, "alice", e1).unwrap();
    let recs =
        UserEventRepository::recommend_events_for_user_based_on_events_similarity(
            &store, "alice", NOW,
        )
        .unwrap();
    let names: Vec<&str> = recs.iter().map(|e| e.name.as_str()).collect();
    assert_eq!(names, vec!["Near"]);
}
