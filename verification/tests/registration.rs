use event_graph::models::event::EventUpdate;
use event_graph::repo::users_events::UserEventRepository;
use event_graph::repo::RepoError;
use event_graph::services::users_events::UserEventService;
use event_graph::store::GraphStore;
use event_graph::utils::api_response::ApiResponse;

fn upd(name: &str, start: &str, kws: &[&str]) -> EventUpdate {
    EventUpdate {
        name: name.to_string(),
        keywords: kws.iter().map(|s| s.to_string()).collect(),
        start_datetime: start.to_string(),
    }
}

fn store_with_alice_and_one_event() -> GraphStore {
    let mut store = GraphStore::new();
    store.add_user("alice".to_string());
    event_graph::repo::events::EventRepository::add(
        &mut store,
        upd("A", "2030-01-01T00:00:00Z", &["a"]),
    )
    .unwrap();
    store
}

fn edge_count(store: &GraphStore, user: &str, event_id: u16) -> usize {
    store
        .registrations
        .iter()
        .filter(|r| r.user_name == user && r.event_id == event_id)
        .count()
}

#[test]
fn assign_twice_leaves_exactly_one_edge() {
    let mut store = store_with_alice_and_one_event();
    let first = UserEventService::assign_user_to_event(&mut store, "alice", 1);
    assert!(matches!(first, ApiResponse::MessageOnly { status: 201, .. }));
    assert_eq!(edge_count(&store, "alice", 1), 1);
    let second = UserEventService::assign_user_to_event(&mut store, "alice", 1);
    assert!(matches!(second, ApiResponse::MessageOnly { status: 201, .. }));
    assert_eq!(edge_count(&store, "alice", 1), 1);
}

#[test]
fn assign_to_missing_user_is_rejected() {
    let mut store = store_with_alice_and_one_event();
    let r = UserEventService::assign_user_to_event(&mut store, "bob", 1);
    match r {
        ApiResponse::MessageOnly { message, status } => {
            assert_eq!(status, 404);
            assert_eq!(message, "User not found with user name: bob");
        }
        other => panic!("expected a message, got {:?}", other),
    }
    assert_eq!(edge_count(&store, "bob", 1), 0);
}

#[test]
fn assign_to_missing_event_is_rejected() {
    let mut store = store_with_alice_and_one_event();
    let r = UserEventService::assign_user_to_event(&mut store, "alice", 9);
    match r {
        ApiResponse::MessageOnly { message, status } => {
            assert_eq!(status, 404);
            assert_eq!(message, "No event found with ID: 9");
        }
        other => panic!("expected a message, got {:?}", other),
    }
}

#[test]
fn is_registered_tracks_assign_and_unassign() {
    let mut store = store_with_alice_and_one_event();
    UserEventService::assign_user_to_event(&mut store, "alice", 1);
    match UserEventService::is_user_registered_to_event(&store, "alice", 1) {
        ApiResponse::Success { data, status, .. } => {
            assert!(data);
            assert_eq!(status, 200);
        }
        other => panic!("expected success, got {:?}", other),
    }
    UserEventService::unassign_user_from_event(&mut store, "alice", 1);
    match UserEventService::is_user_registered_to_event(&store, "alice", 1) {
        ApiResponse::Success { data, .. } => assert!(!data),
        other => panic!("expected success, got {:?}", other),
    }
}

#[test]
fn unassign_without_edge_is_a_no_op() {
    let mut store = store_with_alice_and_one_event();
    let r = UserEventService::unassign_user_from_event(&mut store, "alice", 1);
    match r {
        ApiResponse::MessageOnly { message, status } => {
            assert_eq!(status, 200);
            assert_eq!(message, "User has been unassigned from event");
        }
        other => panic!("expected a message, got {:?}", other),
    }
    assert_eq!(edge_count(&store, "alice", 1), 0);
}

#[test]
fn is_registered_without_event_reports_store_failure() {
    let store = store_with_alice_and_one_event();
    let r = UserEventRepository::is_user_registered_to_event(&store, "alice", 9);
    match r {
        Err(RepoError::Other(m)) => assert_eq!(m, "No result returned from query"),
        other => panic!("expected the no-row failure, got {:?}", other),
    }
}

#[test]
fn remove_event_cascades_registration_edges() {
    let mut store = store_with_alice_and_one_event();
    UserEventService::assign_user_to_event(&mut store, "alice", 1);
    assert_eq!(edge_count(&store, "alice", 1), 1);
    event_graph::repo::events::EventRepository::remove(&mut store, 1).unwrap();
    assert_eq!(edge_count(&store, "alice", 1), 0);
}

#[test]
fn find_all_events_of_user_lists_only_registered() {
    let mut store = store_with_alice_and_one_event();
    event_graph::repo::events::EventRepository::add(
        &mut store,
        upd("B", "2030-01-02T00:00:00Z", &["b"]),
    )
    .unwrap();
    UserEventService::assign_user_to_event(&mut store, "alice", 2);
    match UserEventService::find_all_events_of_user(&store, "alice") {
        ApiResponse::Success { data, .. } => {
            assert_eq!(data.len(), 1);
            assert_eq!(data[0].name, "B");
        }
        other => panic!("expected success, got {:?}", other),
    }
}
