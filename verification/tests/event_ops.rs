use event_graph::models::event::EventUpdate;
use event_graph::repo::events::EventRepoError;
use event_graph::repo::events::EventRepository;
use event_graph::store::GraphStore;

fn upd(name: &str, start: &str, kws: &[&str]) -> EventUpdate {
    EventUpdate {
        name: name.to_string(),
        keywords: kws.iter().map(|s| s.to_string()).collect(),
        start_datetime: start.to_string(),
    }
}

fn sorted(mut v: Vec<String>) -> Vec<String> {
    v.sort();
    v
}

#[test]
fn add_then_find_by_id_returns_submitted_fields() {
    let mut store = GraphStore::new();
    let created = EventRepository::add(
        &mut store,
        upd("Concert", "2030-05-01T20:00:00Z", &["music", "live"]),
    )
    .unwrap();
    assert_eq!(created.id, 1);
    let found = EventRepository::find_by_id(&store, created.id).unwrap();
    assert_eq!(found.name, "Concert");
    assert_eq!(found.start_datetime, "2030-05-01T20:00:00Z");
    assert_eq!(
        sorted(found.keywords),
        sorted(vec!["music".to_string(), "live".to_string()])
    );
}

#[test]
fn add_assigns_increasing_ids() {
    let mut store = GraphStore::new();
    let a = EventRepository::add(&mut store, upd("A", "2030-01-01T00:00:00Z", &["x"])).unwrap();
    let b = EventRepository::add(&mut store, upd("B", "2030-01-02T00:00:00Z", &["x"])).unwrap();
    let c = EventRepository::add(&mut store, upd("C", "2030-01-03T00:00:00Z", &["x"])).unwrap();
    assert_eq!((a.id, b.id, c.id), (1, 2, 3));
    // Deleting an event other than the newest does not hand its id out again.
    EventRepository::remove(&mut store, 2).unwrap();
    let d = EventRepository::add(&mut store, upd("D", "2030-01-04T00:00:00Z", &["x"])).unwrap();
    assert_eq!(d.id, 4);
}

#[test]
fn add_deduplicates_submitted_keywords() {
    let mut store = GraphStore::new();
    let created =
        EventRepository::add(&mut store, upd("A", "2030-01-01T00:00:00Z", &["a", "b", "a"]))
            .unwrap();
    assert_eq!(created.keywords, vec!["a".to_string(), "b".to_string()]);
}

#[test]
fn add_rejects_blank_name() {
    let mut store = GraphStore::new();
    let r = EventRepository::add(&mut store, upd("   ", "2030-01-01T00:00:00Z", &["a"]));
    match r {
        Err(EventRepoError::ValidationError(m)) => assert_eq!(m, "Event name is required"),
        other => panic!("expected a validation error, got {:?}", other),
    }
    assert!(store.events.is_empty());
}

#[test]
fn add_rejects_blank_start() {
    let mut store = GraphStore::new();
    let r = EventRepository::add(&mut store, upd("A", "", &["a"]));
    match r {
        Err(EventRepoError::ValidationError(m)) => assert_eq!(m, "Start datetime is required"),
        other => panic!("expected a validation error, got {:?}", other),
    }
}

#[test]
fn add_rejects_empty_keywords() {
    let mut store = GraphStore::new();
    let r = EventRepository::add(&mut store, upd("A", "2030-01-01T00:00:00Z", &[]));
    match r {
        Err(EventRepoError::ValidationError(m)) => {
            assert_eq!(m, "At least one keyword is required")
        }
        other => panic!("expected a validation error, got {:?}", other),
    }
}

#[test]
fn edit_replaces_keyword_set_exactly() {
    let mut store = GraphStore::new();
    let ev = EventRepository::add(&mut store, upd("A", "2030-01-01T00:00:00Z", &["a", "b"]))
        .unwrap();
    EventRepository::edit(&mut store, ev.id, upd("A", "2030-01-01T00:00:00Z", &["a"])).unwrap();
    let found = EventRepository::find_by_id(&store, ev.id).unwrap();
    assert_eq!(found.keywords, vec!["a".to_string()]);
}

#[test]
fn edit_replaces_name_and_start() {
    let mut store = GraphStore::new();
    let ev = EventRepository::add(&mut store, upd("Old", "2030-01-01T00:00:00Z", &["a"]))
        .unwrap();
    EventRepository::edit(&mut store, ev.id, upd("New", "2031-02-02T00:00:00Z", &["a"])).unwrap();
    let found = EventRepository::find_by_id(&store, ev.id).unwrap();
    assert_eq!(found.id, ev.id);
    assert_eq!(found.name, "New");
    assert_eq!(found.start_datetime, "2031-02-02T00:00:00Z");
}

#[test]
fn edit_of_absent_id_is_not_found() {
    let mut store = GraphStore::new();
    let r = EventRepository::edit(&mut store, 7, upd("A", "2030-01-01T00:00:00Z", &["a"]));
    assert!(matches!(r, Err(EventRepoError::NotFound(7))));
}

#[test]
fn remove_then_find_fails_and_second_remove_fails() {
    let mut store = GraphStore::new();
    let ev = EventRepository::add(&mut store, upd("A", "2030-01-01T00:00:00Z", &["a"])).unwrap();
    let msg = EventRepository::remove(&mut store, ev.id).unwrap();
    assert_eq!(msg, "Event with id 1 successfully deleted");
    assert!(matches!(
        EventRepository::find_by_id(&store, ev.id),
        Err(EventRepoError::NotFound(1))
    ));
    assert!(matches!(
        EventRepository::remove(&mut store, ev.id),
        Err(EventRepoError::NotFound(1))
    ));
}

#[test]
fn remove_keeps_keyword_nodes() {
    let mut store = GraphStore::new();
    let ev = EventRepository::add(&mut store, upd("A", "2030-01-01T00:00:00Z", &["a", "b"]))
        .unwrap();
    EventRepository::remove(&mut store, ev.id).unwrap();
    let kws = EventRepository::get_events_keywords(&store).unwrap();
    assert_eq!(sorted(kws), vec!["a".to_string(), "b".to_string()]);
}

#[test]
fn keyword_nodes_survive_edit_and_stay_distinct() {
    let mut store = GraphStore::new();
    let ev = EventRepository::add(&mut store, upd("A", "2030-01-01T00:00:00Z", &["a", "b"]))
        .unwrap();
    EventRepository::add(&mut store, upd("B", "2030-01-02T00:00:00Z", &["b", "c"])).unwrap();
    EventRepository::edit(&mut store, ev.id, upd("A", "2030-01-01T00:00:00Z", &["a"])).unwrap();
    let kws = EventRepository::get_events_keywords(&store).unwrap();
    assert_eq!(
        sorted(kws),
        vec!["a".to_string(), "b".to_string(), "c".to_string()]
    );
}

#[test]
fn find_all_lists_events_in_store_order() {
    let mut store = GraphStore::new();
    EventRepository::add(&mut store, upd("A", "2030-01-01T00:00:00Z", &["a"])).unwrap();
    EventRepository::add(&mut store, upd("B", "2030-01-02T00:00:00Z", &["b"])).unwrap();
    let all = EventRepository::find_all(&store).unwrap();
    assert_eq!(all.len(), 2);
    assert_eq!(all[0].name, "A");
    assert_eq!(all[1].name, "B");
}

#[test]
fn get_featured_returns_first_three() {
    let mut store = GraphStore::new();
    for n in ["A", "B", "C", "D"] {
        EventRepository::add(&mut store, upd(n, "2030-01-01T00:00:00Z", &["k"])).unwrap();
    }
    let featured = EventRepository::get_featured(&store).unwrap();
    assert_eq!(featured.len(), 3);
    assert_eq!(featured[0].name, "A");
    assert_eq!(featured[1].name, "B");
    assert_eq!(featured[2].name, "C");
}

#[test]
fn get_events_by_keywords_requires_all_keywords() {
    let mut store = GraphStore::new();
    EventRepository::add(&mut store, upd("Both", "2030-01-01T00:00:00Z", &["a", "b"])).unwrap();
    EventRepository::add(&mut store, upd("OnlyA", "2030-01-02T00:00:00Z", &["a"])).unwrap();
    let hits = EventRepository::get_events_by_keywords(
        &store,
        vec!["a".to_string(), "b".to_string()],
    )
    .unwrap();
    assert_eq!(hits.len(), 1);
    assert_eq!(hits[0].name, "Both");
}

#[test]
fn display_renders_every_field() {
    let mut store = GraphStore::new();
    let ev = EventRepository::add(&mut store, upd("A", "2030-01-01T00:00:00Z", &["a"])).unwrap();
    assert_eq!(
        ev.display(),
        "Event ID: 1\nName: A\nStart: 2030-01-01T00:00:00Z\nKeywords: [\"a\"]"
    );
}

#[test]
fn add_rejects_unicode_whitespace_name() {
    let mut store = GraphStore::new();
    let r = EventRepository::add(
        &mut store,
        upd("\u{000B}", "2030-01-01T00:00:00Z", &["a"]),
    );
    match r {
        Err(EventRepoError::ValidationError(m)) => assert_eq!(m, "Event name is required"),
        other => panic!("expected a validation error, got {:?}", other),
    }
    let r = EventRepository::add(
        &mut store,
        upd("A", "\u{00A0}\u{2003}", &["a"]),
    );
    match r {
        Err(EventRepoError::ValidationError(m)) => assert_eq!(m, "Start datetime is required"),
        other => panic!("expected a validation error, got {:?}", other),
    }
    assert!(store.events.is_empty());
}

#[test]
fn deleting_the_largest_id_frees_it_for_the_next_add() {
    let mut store = GraphStore::new();
    EventRepository::add(&mut store, upd("A", "2030-01-01T00:00:00Z", &["x"])).unwrap();
    let b = EventRepository::add(&mut store, upd("B", "2030-01-02T00:00:00Z", &["x"])).unwrap();
    assert_eq!(b.id, 2);
    EventRepository::remove(&mut store, 2).unwrap();
    let c = EventRepository::add(&mut store, upd("C", "2030-01-03T00:00:00Z", &["x"])).unwrap();
    assert_eq!(c.id, 2);
}

#[test]
fn keyword_less_event_is_returned_with_an_empty_set() {
    // Events created through `add` always carry a keyword, but the store may
    // hold one without any (its last keyword edge removed out of band); the
    // left-outer aggregation returns it rather than failing.
    let mut store = GraphStore::new();
    store.events.push(event_graph::models::event::Event {
        id: 1,
        name: "Bare".to_string(),
        start_datetime: "2030-01-01T00:00:00Z".to_string(),
        keywords: Vec::new(),
    });
    let found = EventRepository::find_by_id(&store, 1).unwrap();
    assert_eq!(found.name, "Bare");
    assert!(found.keywords.is_empty());
    let all = EventRepository::find_all(&store).unwrap();
    assert_eq!(all.len(), 1);
    // The keyword filter walks the keyword edges, so a keyword-less event
    // never matches, not even an empty request.
    let hits = EventRepository::get_events_by_keywords(&store, Vec::new()).unwrap();
    assert!(hits.is_empty());
}
