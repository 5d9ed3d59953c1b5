use hackernews::error::GatewayError;
use hackernews::gateway::Item;
use hackernews::time::Timestamp;
use hackernews::types::{Comment, StoryItem};
use hackernews::wire::{decode_item, WireItem};

fn blank() -> WireItem {
    WireItem {
        id: None,
        kind: None,
        title: None,
        url: None,
        text: None,
        by: None,
        score: None,
        descendants: None,
        time: None,
        kids: None,
    }
}

fn story_fields() -> WireItem {
    WireItem {
        id: Some(8863),
        kind: Some("story".to_string()),
        title: Some("My YC app: Dropbox".to_string()),
        url: Some("http://www.getdropbox.com/u/2/screencast.html".to_string()),
        text: None,
        by: Some("dhouston".to_string()),
        score: Some(111),
        descendants: Some(71),
        time: Some(1175714200),
        kids: Some(vec![8952, 9224, 8917]),
    }
}

fn comment_fields() -> WireItem {
    WireItem {
        id: Some(2921983),
        kind: Some("comment".to_string()),
        by: Some("norvig".to_string()),
        text: Some("Aw shucks".to_string()),
        time: Some(1314211127),
        kids: Some(vec![2922097, 2922429]),
        ..blank()
    }
}

#[test]
fn a_story_decodes_field_by_field() {
    let expected = StoryItem {
        id: 8863,
        title: "My YC app: Dropbox".to_string(),
        url: Some("http://www.getdropbox.com/u/2/screencast.html".to_string()),
        text: None,
        by: "dhouston".to_string(),
        score: 111,
        descendants: 71,
        time: Timestamp::from_epoch_seconds(1175714200).unwrap(),
        kids: vec![8952, 9224, 8917],
        kind: "story".to_string(),
    };
    assert_eq!(decode_item(8863, Some(story_fields())), Ok(Item::Story(expected)));
}

#[test]
fn a_comment_decodes_without_replies() {
    let expected = Comment {
        id: 2921983,
        by: "norvig".to_string(),
        text: "Aw shucks".to_string(),
        time: Timestamp::from_epoch_seconds(1314211127).unwrap(),
        kids: vec![2922097, 2922429],
        sub_comments: Vec::new(),
        kind: "comment".to_string(),
    };
    assert_eq!(decode_item(2921983, Some(comment_fields())), Ok(Item::Comment(expected)));
}

#[test]
fn absent_fields_take_their_defaults() {
    let story = WireItem {
        id: Some(1),
        kind: Some("story".to_string()),
        title: Some("t".to_string()),
        time: Some(0),
        ..blank()
    };
    let expected = StoryItem {
        id: 1,
        title: "t".to_string(),
        url: None,
        text: None,
        by: String::new(),
        score: 0,
        descendants: 0,
        time: Timestamp::from_epoch_seconds(0).unwrap(),
        kids: Vec::new(),
        kind: "story".to_string(),
    };
    assert_eq!(decode_item(1, Some(story)), Ok(Item::Story(expected)));
    let comment = WireItem {
        id: Some(2),
        kind: Some("comment".to_string()),
        time: Some(-1),
        ..blank()
    };
    let expected = Comment {
        id: 2,
        by: String::new(),
        text: String::new(),
        time: Timestamp::from_epoch_seconds(-1).unwrap(),
        kids: Vec::new(),
        sub_comments: Vec::new(),
        kind: "comment".to_string(),
    };
    assert_eq!(decode_item(2, Some(comment)), Ok(Item::Comment(expected)));
}

#[test]
fn no_body_is_not_found() {
    assert_eq!(decode_item(5, None), Err(GatewayError::NotFound));
}

#[test]
fn an_item_without_id_type_or_time_does_not_decode() {
    let no_id = WireItem { id: None, ..story_fields() };
    let no_kind = WireItem { kind: None, ..story_fields() };
    let no_time = WireItem { time: None, ..story_fields() };
    assert_eq!(decode_item(8863, Some(no_id)), Err(GatewayError::DecodeError));
    assert_eq!(decode_item(8863, Some(no_kind)), Err(GatewayError::DecodeError));
    assert_eq!(decode_item(8863, Some(no_time)), Err(GatewayError::DecodeError));
    assert_eq!(decode_item(0, Some(blank())), Err(GatewayError::DecodeError));
}

#[test]
fn a_story_without_title_does_not_decode() {
    let untitled = WireItem { title: None, ..story_fields() };
    assert_eq!(decode_item(8863, Some(untitled)), Err(GatewayError::DecodeError));
}

#[test]
fn a_comment_needs_no_title() {
    let titled = WireItem { title: Some("ignored".to_string()), ..comment_fields() };
    assert!(matches!(decode_item(2921983, Some(titled)), Ok(Item::Comment(_))));
}

#[test]
fn an_item_of_another_type_does_not_decode() {
    let job = WireItem { kind: Some("job".to_string()), ..story_fields() };
    let upper = WireItem { kind: Some("Story".to_string()), ..story_fields() };
    let empty = WireItem { kind: Some(String::new()), ..story_fields() };
    assert_eq!(decode_item(8863, Some(job)), Err(GatewayError::DecodeError));
    assert_eq!(decode_item(8863, Some(upper)), Err(GatewayError::DecodeError));
    assert_eq!(decode_item(8863, Some(empty)), Err(GatewayError::DecodeError));
}

#[test]
fn an_item_with_another_id_does_not_decode() {
    assert_eq!(decode_item(8864, Some(story_fields())), Err(GatewayError::DecodeError));
    assert_eq!(decode_item(1, Some(comment_fields())), Err(GatewayError::DecodeError));
}

#[test]
fn a_time_out_of_range_does_not_decode() {
    let late = WireItem { time: Some(i64::MAX), ..story_fields() };
    let early = WireItem { time: Some(i64::MIN), ..comment_fields() };
    assert_eq!(decode_item(8863, Some(late)), Err(GatewayError::DecodeError));
    assert_eq!(decode_item(2921983, Some(early)), Err(GatewayError::DecodeError));
}

#[test]
fn a_timestamp_keeps_its_seconds() {
    assert_eq!(Timestamp::from_epoch_seconds(0).unwrap().epoch_seconds(), 0);
    assert_eq!(Timestamp::from_epoch_seconds(1175714200).unwrap().epoch_seconds(), 1175714200);
    assert_eq!(Timestamp::from_epoch_seconds(-86_400).unwrap().epoch_seconds(), -86_400);
}

#[test]
fn a_timestamp_exists_only_within_the_range_of_the_calendar() {
    assert!(Timestamp::from_epoch_seconds(8_210_266_876_799).is_some());
    assert!(Timestamp::from_epoch_seconds(8_210_266_876_800).is_none());
    assert!(Timestamp::from_epoch_seconds(i64::MAX).is_none());
    assert!(Timestamp::from_epoch_seconds(i64::MIN).is_none());
}

#[test]
fn a_timestamp_agrees_with_the_calendar() {
    let secs = 1_431_648_000;
    let instant = chrono::DateTime::from_timestamp(secs, 0).unwrap();
    assert_eq!(Timestamp::from_epoch_seconds(secs).unwrap().epoch_seconds(), instant.timestamp());
}
