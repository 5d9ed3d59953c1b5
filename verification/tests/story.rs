use hackernews::error::{GatewayError, ResolveError};
use hackernews::gateway::Item;
use hackernews::story_resolver::{StoryProgress, StoryResolver};
use hackernews::time::Timestamp;
use hackernews::types::{Comment, StoryItem, StoryPageData};
use std::collections::HashMap;

type Remote = HashMap<i64, Result<Item, GatewayError>>;

fn comment(id: i64, kids: Vec<i64>) -> Comment {
    Comment {
        id,
        by: format!("user{id}"),
        text: format!("text of {id}"),
        time: Timestamp::from_epoch_seconds(1_700_000_000 + id).unwrap(),
        kids,
        sub_comments: Vec::new(),
        kind: "comment".to_string(),
    }
}

fn story(id: i64, kids: Vec<i64>) -> StoryItem {
    StoryItem {
        id,
        title: format!("story {id}"),
        url: Some("https://example.com/a".to_string()),
        text: None,
        by: "author".to_string(),
        score: 7,
        descendants: 3,
        time: Timestamp::from_epoch_seconds(1_600_000_000).unwrap(),
        kids,
        kind: "story".to_string(),
    }
}

fn fetch(remote: &Remote, id: i64) -> Result<Item, GatewayError> {
    match remote.get(&id) {
        Some(answer) => answer.clone(),
        None => Err(GatewayError::NotFound),
    }
}

fn resolve(remote: &Remote, story_id: i64, cap: usize) -> (Result<StoryPageData, ResolveError>, Vec<i64>) {
    let mut fetched = Vec::new();
    let mut resolver = StoryResolver::begin(story_id, cap);
    loop {
        let id = resolver.pending();
        fetched.push(id);
        match resolver.advance(fetch(remote, id)) {
            StoryProgress::Done(data) => return (Ok(data), fetched),
            StoryProgress::Failed(e) => return (Err(e), fetched),
            StoryProgress::Fetch(next) => resolver = next,
        }
    }
}

fn sample_remote() -> Remote {
    let mut remote = Remote::new();
    remote.insert(100, Ok(Item::Story(story(100, vec![1, 2]))));
    remote.insert(1, Ok(Item::Comment(comment(1, vec![3]))));
    remote.insert(2, Ok(Item::Comment(comment(2, vec![]))));
    remote.insert(3, Ok(Item::Comment(comment(3, vec![]))));
    remote
}

#[test]
fn a_story_resolves_with_its_whole_comment_tree() {
    let (result, fetched) = resolve(&sample_remote(), 100, 2);
    let mut first = comment(1, vec![3]);
    first.sub_comments = vec![comment(3, vec![])];
    let expected = StoryPageData {
        item: story(100, vec![1, 2]),
        comments: vec![first, comment(2, vec![])],
    };
    assert_eq!(result, Ok(expected));
    assert_eq!(fetched, vec![100, 1, 3, 2]);
}

#[test]
fn a_story_without_kids_resolves_to_no_comments() {
    let mut remote = Remote::new();
    remote.insert(7, Ok(Item::Story(story(7, vec![]))));
    let (result, fetched) = resolve(&remote, 7, 0);
    assert_eq!(result, Ok(StoryPageData { item: story(7, vec![]), comments: vec![] }));
    assert_eq!(fetched, vec![7]);
}

#[test]
fn resolving_twice_gives_equal_results() {
    let remote = sample_remote();
    let (once, _) = resolve(&remote, 100, 2);
    let (again, _) = resolve(&remote, 100, 2);
    assert!(once.is_ok());
    assert_eq!(once, again);
}

#[test]
fn a_failed_story_fetch_fails_with_the_kind_of_the_gateway() {
    let mut remote = Remote::new();
    remote.insert(1, Err(GatewayError::NetworkError));
    remote.insert(2, Err(GatewayError::DecodeError));
    assert_eq!(resolve(&remote, 1, 3).0, Err(ResolveError::NetworkError));
    assert_eq!(resolve(&remote, 2, 3).0, Err(ResolveError::DecodeError));
    assert_eq!(resolve(&remote, 3, 3).0, Err(ResolveError::NotFound));
}

#[test]
fn a_comment_where_the_story_is_expected_is_a_decode_error() {
    let mut remote = Remote::new();
    remote.insert(1, Ok(Item::Comment(comment(1, vec![]))));
    assert_eq!(resolve(&remote, 1, 3).0, Err(ResolveError::DecodeError));
}

#[test]
fn a_failed_comment_fails_the_story() {
    let mut remote = sample_remote();
    remote.insert(3, Err(GatewayError::NotFound));
    let (result, fetched) = resolve(&remote, 100, 2);
    assert_eq!(result, Err(ResolveError::NotFound));
    assert_eq!(fetched, vec![100, 1, 3]);
}

#[test]
fn a_story_with_comments_deeper_than_the_cap_exceeds_the_depth() {
    let (result, _) = resolve(&sample_remote(), 100, 1);
    assert_eq!(result, Err(ResolveError::DepthExceeded));
}

#[test]
fn a_story_with_kids_and_a_cap_of_zero_exceeds_the_depth() {
    let (result, fetched) = resolve(&sample_remote(), 100, 0);
    assert_eq!(result, Err(ResolveError::DepthExceeded));
    assert_eq!(fetched, vec![100]);
}

#[test]
fn a_cloned_story_equals_its_source() {
    let (result, _) = resolve(&sample_remote(), 100, 2);
    let data = result.unwrap();
    assert_eq!(data.clone(), data);
    assert_eq!(data.item.clone(), data.item);
}

#[test]
fn gateway_errors_keep_their_kind() {
    assert_eq!(ResolveError::from_gateway(GatewayError::NotFound), ResolveError::NotFound);
    assert_eq!(ResolveError::from_gateway(GatewayError::NetworkError), ResolveError::NetworkError);
    assert_eq!(ResolveError::from_gateway(GatewayError::DecodeError), ResolveError::DecodeError);
}

#[test]
fn only_superseded_is_hidden_from_the_user() {
    assert!(ResolveError::NotFound.is_user_visible());
    assert!(ResolveError::NetworkError.is_user_visible());
    assert!(ResolveError::DecodeError.is_user_visible());
    assert!(ResolveError::DepthExceeded.is_user_visible());
    assert!(!ResolveError::Superseded.is_user_visible());
}
