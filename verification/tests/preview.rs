use hackernews::coordinator::PreviewCoordinator;
use hackernews::error::{GatewayError, ResolveError};
use hackernews::gateway::Item;
use hackernews::preview::FetchRequest;
use hackernews::time::Timestamp;
use hackernews::types::{Comment, PreviewState, StoryItem, StoryPageData};
use std::collections::HashMap;

type Remote = HashMap<i64, Result<Item, GatewayError>>;

fn comment(id: i64, kids: Vec<i64>) -> Comment {
    Comment {
        id,
        by: format!("user{id}"),
        text: format!("text of {id}"),
        time: Timestamp::from_epoch_seconds(1_700_000_000 + id).unwrap(),
        kids,
        sub_comments: Vec::new(),
        kind: "comment".to_string(),
    }
}

fn story(id: i64, kids: Vec<i64>) -> StoryItem {
    StoryItem {
        id,
        title: format!("story {id}"),
        url: None,
        text: Some("body".to_string()),
        by: "author".to_string(),
        score: 1,
        descendants: 1,
        time: Timestamp::from_epoch_seconds(1_600_000_000).unwrap(),
        kids,
        kind: "story".to_string(),
    }
}

fn remote() -> Remote {
    let mut remote = Remote::new();
    remote.insert(100, Ok(Item::Story(story(100, vec![1]))));
    remote.insert(1, Ok(Item::Comment(comment(1, vec![]))));
    remote.insert(200, Ok(Item::Story(story(200, vec![2, 3]))));
    remote.insert(2, Ok(Item::Comment(comment(2, vec![]))));
    remote.insert(3, Ok(Item::Comment(comment(3, vec![]))));
    remote.insert(300, Ok(Item::Story(story(300, vec![4]))));
    remote.insert(4, Err(GatewayError::NetworkError));
    remote
}

fn fetch(remote: &Remote, id: i64) -> Result<Item, GatewayError> {
    match remote.get(&id) {
        Some(answer) => answer.clone(),
        None => Err(GatewayError::NotFound),
    }
}

fn data_a() -> StoryPageData {
    StoryPageData { item: story(100, vec![1]), comments: vec![comment(1, vec![])] }
}

fn data_b() -> StoryPageData {
    StoryPageData {
        item: story(200, vec![2, 3]),
        comments: vec![comment(2, vec![]), comment(3, vec![])],
    }
}

/// Performs the ordered fetch and every fetch that follows from it.
fn run(coordinator: &mut PreviewCoordinator, remote: &Remote, first: FetchRequest) -> Result<(), ResolveError> {
    let mut order = first;
    loop {
        match coordinator.deliver(order.token, fetch(remote, order.id)) {
            Ok(Some(next)) => order = next,
            Ok(None) => return Ok(()),
            Err(e) => return Err(e),
        }
    }
}

#[test]
fn a_new_coordinator_is_unset() {
    let coordinator = PreviewCoordinator::new(3);
    assert_eq!(*coordinator.state(), PreviewState::Unset);
    assert_eq!(coordinator.failure(), None);
    assert_eq!(coordinator.latest_token(), 0);
    assert!(coordinator.can_request());
}

#[test]
fn a_request_turns_the_slot_to_loading_and_orders_the_story() {
    let mut coordinator = PreviewCoordinator::new(3);
    let order = coordinator.request_preview(100);
    assert_eq!(order, FetchRequest { token: 1, id: 100 });
    assert_eq!(*coordinator.state(), PreviewState::Loading);
    assert_eq!(coordinator.latest_token(), 1);
}

#[test]
fn a_resolution_that_completes_loads_the_slot() {
    let remote = remote();
    let mut coordinator = PreviewCoordinator::new(3);
    let order = coordinator.request_preview(100);
    let next = coordinator.deliver(order.token, fetch(&remote, order.id));
    assert_eq!(next, Ok(Some(FetchRequest { token: 1, id: 1 })));
    assert_eq!(*coordinator.state(), PreviewState::Loading);
    let end = coordinator.deliver(1, fetch(&remote, 1));
    assert_eq!(end, Ok(None));
    assert_eq!(*coordinator.state(), PreviewState::Loaded(data_a()));
    assert_eq!(coordinator.failure(), None);
}

#[test]
fn the_second_request_wins_when_the_first_answers_first() {
    let remote = remote();
    let mut coordinator = PreviewCoordinator::new(3);
    let a = coordinator.request_preview(100);
    let b = coordinator.request_preview(200);
    assert_eq!(run(&mut coordinator, &remote, a), Err(ResolveError::Superseded));
    assert_eq!(*coordinator.state(), PreviewState::Loading);
    assert_eq!(run(&mut coordinator, &remote, b), Ok(()));
    assert_eq!(*coordinator.state(), PreviewState::Loaded(data_b()));
}

#[test]
fn the_second_request_wins_when_the_first_answers_last() {
    let remote = remote();
    let mut coordinator = PreviewCoordinator::new(3);
    let a = coordinator.request_preview(100);
    let b = coordinator.request_preview(200);
    assert_eq!(run(&mut coordinator, &remote, b), Ok(()));
    assert_eq!(*coordinator.state(), PreviewState::Loaded(data_b()));
    assert_eq!(run(&mut coordinator, &remote, a), Err(ResolveError::Superseded));
    assert_eq!(*coordinator.state(), PreviewState::Loaded(data_b()));
    assert_eq!(coordinator.failure(), None);
}

#[test]
fn answers_of_both_requests_may_interleave() {
    let remote = remote();
    let mut coordinator = PreviewCoordinator::new(3);
    let a = coordinator.request_preview(100);
    let b = coordinator.request_preview(200);
    let b2 = coordinator.deliver(b.token, fetch(&remote, 200)).unwrap().unwrap();
    assert_eq!(coordinator.deliver(a.token, fetch(&remote, 100)), Err(ResolveError::Superseded));
    let b3 = coordinator.deliver(b2.token, fetch(&remote, b2.id)).unwrap().unwrap();
    assert_eq!(coordinator.deliver(a.token, fetch(&remote, 1)), Err(ResolveError::Superseded));
    assert_eq!(*coordinator.state(), PreviewState::Loading);
    assert_eq!(coordinator.deliver(b3.token, fetch(&remote, b3.id)), Ok(None));
    assert_eq!(*coordinator.state(), PreviewState::Loaded(data_b()));
}

#[test]
fn a_failure_of_the_superseded_request_leaves_no_trace() {
    let remote = remote();
    let mut coordinator = PreviewCoordinator::new(3);
    let a = coordinator.request_preview(300);
    let b = coordinator.request_preview(200);
    assert_eq!(run(&mut coordinator, &remote, a), Err(ResolveError::Superseded));
    assert_eq!(coordinator.failure(), None);
    assert_eq!(run(&mut coordinator, &remote, b), Ok(()));
    assert_eq!(*coordinator.state(), PreviewState::Loaded(data_b()));
}

#[test]
fn a_failed_resolution_unsets_the_slot_and_records_the_error() {
    let remote = remote();
    let mut coordinator = PreviewCoordinator::new(3);
    let order = coordinator.request_preview(300);
    assert_eq!(run(&mut coordinator, &remote, order), Err(ResolveError::NetworkError));
    assert_eq!(*coordinator.state(), PreviewState::Unset);
    assert_eq!(coordinator.failure(), Some(ResolveError::NetworkError));
}

#[test]
fn a_new_request_clears_the_recorded_failure() {
    let remote = remote();
    let mut coordinator = PreviewCoordinator::new(3);
    let failing = coordinator.request_preview(300);
    assert_eq!(run(&mut coordinator, &remote, failing), Err(ResolveError::NetworkError));
    let order = coordinator.request_preview(100);
    assert_eq!(coordinator.failure(), None);
    assert_eq!(*coordinator.state(), PreviewState::Loading);
    assert_eq!(run(&mut coordinator, &remote, order), Ok(()));
    assert_eq!(*coordinator.state(), PreviewState::Loaded(data_a()));
}

#[test]
fn an_answer_with_nothing_in_flight_is_discarded() {
    let remote = remote();
    let mut coordinator = PreviewCoordinator::new(3);
    assert_eq!(coordinator.deliver(0, fetch(&remote, 100)), Err(ResolveError::Superseded));
    assert_eq!(*coordinator.state(), PreviewState::Unset);
    let order = coordinator.request_preview(100);
    assert_eq!(run(&mut coordinator, &remote, order), Ok(()));
    assert_eq!(coordinator.deliver(order.token, fetch(&remote, 1)), Err(ResolveError::Superseded));
    assert_eq!(*coordinator.state(), PreviewState::Loaded(data_a()));
}

#[test]
fn a_request_for_a_loaded_story_loads_it_anew() {
    let remote = remote();
    let mut coordinator = PreviewCoordinator::new(3);
    let first = coordinator.request_preview(100);
    assert_eq!(run(&mut coordinator, &remote, first), Ok(()));
    let second = coordinator.request_preview(100);
    assert_eq!(second, FetchRequest { token: 2, id: 100 });
    assert_eq!(*coordinator.state(), PreviewState::Loading);
    assert_eq!(run(&mut coordinator, &remote, second), Ok(()));
    assert_eq!(*coordinator.state(), PreviewState::Loaded(data_a()));
}

#[test]
fn the_cap_of_the_coordinator_guards_the_depth() {
    let remote = remote();
    let mut coordinator = PreviewCoordinator::new(0);
    let order = coordinator.request_preview(100);
    assert_eq!(run(&mut coordinator, &remote, order), Err(ResolveError::DepthExceeded));
    assert_eq!(*coordinator.state(), PreviewState::Unset);
    assert_eq!(coordinator.failure(), Some(ResolveError::DepthExceeded));
}

#[test]
fn a_cloned_state_equals_its_source() {
    let loaded = PreviewState::Loaded(data_b());
    assert_eq!(loaded.clone(), loaded);
    assert_eq!(PreviewState::Loading.clone(), PreviewState::Loading);
    assert_eq!(PreviewState::Unset.clone(), PreviewState::Unset);
}
