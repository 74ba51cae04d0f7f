use event_graph::models::event::EventUpdate;
use event_graph::repo::users::UserRepoError;
use event_graph::repo::users::UserRepository;
use event_graph::services::users::UserService;
use event_graph::store::GraphStore;
use event_graph::utils::api_response::ApiResponse;
use event_graph::utils::pagination::PaginatedResponse;
use event_graph::utils::pagination::PaginationParams;

#[test]
fn find_one_returns_the_user_or_not_found() {
    let mut store = GraphStore::new();
    store.add_user("alice".to_string());
    let found = UserRepository::find_one(&store, "alice").unwrap();
    assert_eq!(found.name, "alice");
    match UserRepository::find_one(&store, "bob") {
        Err(UserRepoError::UserNotFound(n)) => assert_eq!(n, "bob"),
        other => panic!("expected not-found, got {:?}", other),
    }
}

#[test]
fn users_are_listed_in_name_order_regardless_of_arrival() {
    let mut store = GraphStore::new();
    for name in ["carol", "alice", "bob"] {
        store.add_user(name.to_string());
    }
    let (users, total) = UserRepository::find_all(&store, 1, 10).unwrap();
    assert_eq!(total, 3);
    let names: Vec<&str> = users.iter().map(|u| u.name.as_str()).collect();
    assert_eq!(names, vec!["alice", "bob", "carol"]);
}

#[test]
fn adding_a_user_twice_keeps_one_node() {
    let mut store = GraphStore::new();
    assert!(store.add_user("alice".to_string()));
    assert!(!store.add_user("alice".to_string()));
    assert_eq!(store.users.len(), 1);
}

#[test]
fn second_page_of_twenty_five_users_holds_items_eleven_to_twenty() {
    let mut store = GraphStore::new();
    for i in 1..=25u32 {
        store.add_user(format!("user{:02}", i));
    }
    let params = PaginationParams { page: 2, limit: 10 };
    match UserService::get_all(&store, Some(params)) {
        ApiResponse::Paginated { data, status, .. } => {
            assert_eq!(status, 200);
            assert_eq!(data.total, 25);
            assert_eq!(data.page, 2);
            assert_eq!(data.limit, 10);
            assert_eq!(data.pages, 3);
            assert_eq!(data.items.len(), 10);
            assert_eq!(data.items[0].name, "user11");
            assert_eq!(data.items[9].name, "user20");
        }
        other => panic!("expected a page, got {:?}", other),
    }
}

#[test]
fn listing_defaults_to_first_page_of_ten() {
    let mut store = GraphStore::new();
    for i in 1..=12u32 {
        store.add_user(format!("user{:02}", i));
    }
    match UserService::get_all(&store, None) {
        ApiResponse::Paginated { data, .. } => {
            assert_eq!(data.page, 1);
            assert_eq!(data.limit, 10);
            assert_eq!(data.items.len(), 10);
            assert_eq!(data.pages, 2);
        }
        other => panic!("expected a page, got {:?}", other),
    }
}

#[test]
fn page_past_the_end_is_empty() {
    let mut store = GraphStore::new();
    store.add_user("alice".to_string());
    let (users, total) = UserRepository::find_all(&store, 5, 10).unwrap();
    assert_eq!(total, 1);
    assert!(users.is_empty());
}

#[test]
fn pages_is_the_total_rounded_up_to_whole_pages() {
    let params = PaginationParams { page: 1, limit: 10 };
    let empty: Vec<u32> = Vec::new();
    assert_eq!(PaginatedResponse::new(empty, 0, &params).pages, 0);
    let one: Vec<u32> = vec![1];
    assert_eq!(PaginatedResponse::new(one, 10, &params).pages, 1);
    let two: Vec<u32> = vec![2];
    assert_eq!(PaginatedResponse::new(two, 11, &params).pages, 2);
    let three: Vec<u32> = vec![3];
    assert_eq!(PaginatedResponse::new(three, 25, &params).pages, 3);
}

#[test]
fn default_pagination_is_first_page_of_ten() {
    let params = PaginationParams::default();
    assert_eq!(params.page, 1);
    assert_eq!(params.limit, 10);
}

#[test]
fn event_service_wraps_lookups_with_statuses() {
    let mut store = GraphStore::new();
    event_graph::repo::events::EventRepository::add(
        &mut store,
        EventUpdate {
            name: "A".to_string(),
            keywords: vec!["a".to_string()],
            start_datetime: "2030-01-01T00:00:00Z".to_string(),
        },
    )
    .unwrap();
    match event_graph::services::events::EventService::get_event(&store, 1) {
        ApiResponse::Success { data, message, status } => {
            assert_eq!(data.name, "A");
            assert_eq!(message, "Event found successfully");
            assert_eq!(status, 200);
        }
        other => panic!("expected success, got {:?}", other),
    }
    match event_graph::services::events::EventService::get_event(&store, 2) {
        ApiResponse::MessageOnly { message, status } => {
            assert_eq!(message, "No event found with ID: 2");
            assert_eq!(status, 404);
        }
        other => panic!("expected a message, got {:?}", other),
    }
}

#[test]
fn error_payloads_carry_status_and_message() {
    let r = event_graph::utils::error_catcher::not_found("/events/7");
    assert_eq!(r.status, 404);
    assert_eq!(r.message, "Resource '/events/7' not found");
    let r = event_graph::utils::error_catcher::internal_error();
    assert_eq!(r.status, 500);
    assert_eq!(r.message, "Internal server error occurred");
    let r = event_graph::utils::error_catcher::default_catcher(418, "/tea");
    assert_eq!(r.status, 418);
    assert_eq!(r.message, "Request to '/tea' failed with status: 418");
}
