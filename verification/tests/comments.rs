use hackernews::comment_resolver::{CommentProgress, CommentResolver};
use hackernews::error::{GatewayError, ResolveError};
use hackernews::gateway::Item;
use hackernews::time::Timestamp;
use hackernews::types::{Comment, StoryItem};
use std::collections::HashMap;

type Remote = HashMap<i64, Result<Item, GatewayError>>;

fn comment(id: i64, kids: Vec<i64>) -> Comment {
    Comment {
        id,
        by: format!("user{id}"),
        text: format!("text of {id}"),
        time: Timestamp::from_epoch_seconds(1_700_000_000 + id).unwrap(),
        kids,
        sub_comments: Vec::new(),
        kind: "comment".to_string(),
    }
}

fn story(id: i64, kids: Vec<i64>) -> StoryItem {
    StoryItem {
        id,
        title: format!("story {id}"),
        url: None,
        text: None,
        by: "author".to_string(),
        score: 7,
        descendants: 0,
        time: Timestamp::from_epoch_seconds(1_600_000_000).unwrap(),
        kids,
        kind: "story".to_string(),
    }
}

fn remote_of(comments: Vec<Comment>) -> Remote {
    let mut remote = Remote::new();
    for c in comments {
        remote.insert(c.id, Ok(Item::Comment(c)));
    }
    remote
}

fn fetch(remote: &Remote, id: i64) -> Result<Item, GatewayError> {
    match remote.get(&id) {
        Some(answer) => answer.clone(),
        None => Err(GatewayError::NotFound),
    }
}

/// Drives a resolution to its end and reports the IDs fetched on the way.
fn resolve(remote: &Remote, ids: Vec<i64>, cap: usize) -> (Result<Vec<Comment>, ResolveError>, Vec<i64>) {
    let mut fetched = Vec::new();
    let mut progress = CommentResolver::begin(ids, cap);
    loop {
        match progress {
            CommentProgress::Done(comments) => return (Ok(comments), fetched),
            CommentProgress::Failed(e) => return (Err(e), fetched),
            CommentProgress::Fetch(resolver) => {
                let id = resolver.pending();
                fetched.push(id);
                progress = resolver.advance(fetch(remote, id));
            }
        }
    }
}

fn with_replies(mut c: Comment, replies: Vec<Comment>) -> Comment {
    c.sub_comments = replies;
    c
}

#[test]
fn no_ids_resolve_to_no_comments_without_a_fetch() {
    let remote = Remote::new();
    let (result, fetched) = resolve(&remote, Vec::new(), 3);
    assert_eq!(result, Ok(Vec::new()));
    assert!(fetched.is_empty());
}

#[test]
fn no_ids_resolve_even_with_a_cap_of_zero() {
    let remote = Remote::new();
    let (result, _) = resolve(&remote, Vec::new(), 0);
    assert_eq!(result, Ok(Vec::new()));
}

#[test]
fn a_cap_of_zero_rejects_any_comment_without_a_fetch() {
    let remote = remote_of(vec![comment(1, vec![])]);
    let (result, fetched) = resolve(&remote, vec![1], 0);
    assert_eq!(result, Err(ResolveError::DepthExceeded));
    assert!(fetched.is_empty());
}

#[test]
fn a_comment_without_kids_has_no_replies() {
    let remote = remote_of(vec![comment(1, vec![])]);
    let (result, fetched) = resolve(&remote, vec![1], 1);
    assert_eq!(result, Ok(vec![comment(1, vec![])]));
    assert_eq!(fetched, vec![1]);
}

#[test]
fn replies_fetched_beforehand_are_replaced() {
    let stale = with_replies(comment(1, vec![]), vec![comment(99, vec![])]);
    let remote = remote_of(vec![stale]);
    let (result, _) = resolve(&remote, vec![1], 2);
    assert_eq!(result, Ok(vec![comment(1, vec![])]));
}

#[test]
fn a_tree_is_resolved_depth_first_in_the_order_of_the_kids() {
    let remote = remote_of(vec![
        comment(1, vec![11, 12]),
        comment(2, vec![]),
        comment(3, vec![31]),
        comment(11, vec![111]),
        comment(12, vec![]),
        comment(31, vec![]),
        comment(111, vec![]),
    ]);
    let (result, fetched) = resolve(&remote, vec![1, 2, 3], 3);
    let expected = vec![
        with_replies(
            comment(1, vec![11, 12]),
            vec![
                with_replies(comment(11, vec![111]), vec![comment(111, vec![])]),
                comment(12, vec![]),
            ],
        ),
        comment(2, vec![]),
        with_replies(comment(3, vec![31]), vec![comment(31, vec![])]),
    ];
    assert_eq!(result, Ok(expected));
    assert_eq!(fetched, vec![1, 11, 111, 12, 2, 3, 31]);
}

#[test]
fn resolved_comments_stand_at_the_positions_of_their_ids() {
    let remote = remote_of(vec![
        comment(5, vec![8, 6]),
        comment(9, vec![]),
        comment(4, vec![]),
        comment(8, vec![]),
        comment(6, vec![]),
    ]);
    let ids = vec![9, 5, 4];
    let (result, _) = resolve(&remote, ids.clone(), 2);
    let comments = result.unwrap();
    assert_eq!(comments.len(), ids.len());
    for (c, id) in comments.iter().zip(ids.iter()) {
        assert_eq!(c.id, *id);
        assert_eq!(c.sub_comments.len(), c.kids.len());
        for (reply, kid) in c.sub_comments.iter().zip(c.kids.iter()) {
            assert_eq!(reply.id, *kid);
        }
    }
}

#[test]
fn one_failure_deep_in_the_tree_fails_the_whole() {
    let mut remote = remote_of(vec![
        comment(1, vec![11]),
        comment(2, vec![]),
        comment(11, vec![111, 112]),
        comment(111, vec![]),
    ]);
    remote.insert(112, Err(GatewayError::NetworkError));
    let (result, fetched) = resolve(&remote, vec![1, 2], 3);
    assert_eq!(result, Err(ResolveError::NetworkError));
    assert_eq!(fetched, vec![1, 11, 111, 112]);
}

#[test]
fn the_first_failure_in_depth_first_order_is_reported() {
    let mut remote = remote_of(vec![comment(1, vec![11]), comment(3, vec![])]);
    remote.insert(11, Err(GatewayError::DecodeError));
    remote.insert(2, Err(GatewayError::NetworkError));
    let (result, _) = resolve(&remote, vec![1, 2, 3], 3);
    assert_eq!(result, Err(ResolveError::DecodeError));
}

#[test]
fn a_missing_comment_is_not_found() {
    let remote = remote_of(vec![comment(1, vec![])]);
    let (result, _) = resolve(&remote, vec![1, 2], 3);
    assert_eq!(result, Err(ResolveError::NotFound));
}

#[test]
fn a_story_where_a_comment_is_expected_is_a_decode_error() {
    let mut remote = remote_of(vec![comment(1, vec![2])]);
    remote.insert(2, Ok(Item::Story(story(2, vec![]))));
    let (result, _) = resolve(&remote, vec![1], 3);
    assert_eq!(result, Err(ResolveError::DecodeError));
}

#[test]
fn a_tree_as_deep_as_the_cap_resolves() {
    let remote = remote_of(vec![comment(1, vec![2]), comment(2, vec![3]), comment(3, vec![])]);
    let (result, _) = resolve(&remote, vec![1], 3);
    let expected = with_replies(
        comment(1, vec![2]),
        vec![with_replies(comment(2, vec![3]), vec![comment(3, vec![])])],
    );
    assert_eq!(result, Ok(vec![expected]));
}

#[test]
fn a_tree_deeper_than_the_cap_exceeds_the_depth() {
    let remote = remote_of(vec![
        comment(1, vec![2]),
        comment(2, vec![3]),
        comment(3, vec![4]),
        comment(4, vec![]),
    ]);
    let (result, fetched) = resolve(&remote, vec![1], 3);
    assert_eq!(result, Err(ResolveError::DepthExceeded));
    assert_eq!(fetched, vec![1, 2, 3]);
}

#[test]
fn a_very_deep_chain_exceeds_the_depth_without_exhausting_the_stack() {
    let mut comments = Vec::new();
    for id in 1..=20_000 {
        comments.push(comment(id, vec![id + 1]));
    }
    let remote = remote_of(comments);
    let (result, fetched) = resolve(&remote, vec![1], 10_000);
    assert_eq!(result, Err(ResolveError::DepthExceeded));
    assert_eq!(fetched.len(), 10_000);
}

#[test]
fn a_comment_that_names_itself_as_kid_exceeds_the_depth() {
    let remote = remote_of(vec![comment(1, vec![1])]);
    let (result, fetched) = resolve(&remote, vec![1], 5);
    assert_eq!(result, Err(ResolveError::DepthExceeded));
    assert_eq!(fetched, vec![1, 1, 1, 1, 1]);
}

#[test]
fn the_pending_id_is_the_first_id_at_the_start() {
    match CommentResolver::begin(vec![42, 43], 1) {
        CommentProgress::Fetch(resolver) => assert_eq!(resolver.pending(), 42),
        _ => panic!("a fetch is needed"),
    }
}

#[test]
fn a_cloned_comment_equals_its_source() {
    let tree = with_replies(
        comment(1, vec![2, 3]),
        vec![with_replies(comment(2, vec![4]), vec![comment(4, vec![])]), comment(3, vec![])],
    );
    assert_eq!(tree.clone(), tree);
}
