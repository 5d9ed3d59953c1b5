//! Decoding at the gateway boundary: from the fields of a JSON object, as
//! the remote system sends them, to a story or a comment.
//!
//! The `type` field tells stories from comments. Every item needs an ID, a
//! type and a time; a story needs a title as well. The other fields have
//! defaults. The time comes as whole seconds since the Unix epoch and must
//! be an instant that `chrono` can represent.

use crate::error::GatewayError;
use crate::gateway::{outcome_view, Item, ItemView};
use crate::time::{chrono_represents, Timestamp};
use crate::types::{text_view, Comment, CommentView, StoryItem, StoryItemView};
use vstd::prelude::*;

verus! {

/// The fields of one remote item, each present or absent.
#[derive(Debug, PartialEq)]
pub struct WireItem {
    pub id: Option<i64>,
    /// The `type` field.
    pub kind: Option<String>,
    pub title: Option<String>,
    pub url: Option<String>,
    pub text: Option<String>,
    pub by: Option<String>,
    pub score: Option<i64>,
    pub descendants: Option<i64>,
    /// Seconds since the Unix epoch.
    pub time: Option<i64>,
    pub kids: Option<Vec<i64>>,
}

/// Mathematical value of a [`WireItem`].
pub struct WireItemView {
    pub id: Option<i64>,
    pub kind: Option<Seq<char>>,
    pub title: Option<Seq<char>>,
    pub url: Option<Seq<char>>,
    pub text: Option<Seq<char>>,
    pub by: Option<Seq<char>>,
    pub score: Option<i64>,
    pub descendants: Option<i64>,
    pub time: Option<i64>,
    pub kids: Option<Seq<i64>>,
}

/// Mathematical value of an optional list of IDs.
pub open spec fn ids_view(ids: Option<Vec<i64>>) -> Option<Seq<i64>> {
    match ids {
        Some(v) => Some(v@),
        None => None,
    }
}

impl View for WireItem {
    type V = WireItemView;

    open spec fn view(&self) -> WireItemView {
        WireItemView {
            id: self.id,
            kind: text_view(self.kind),
            title: text_view(self.title),
            url: text_view(self.url),
            text: text_view(self.text),
            by: text_view(self.by),
            score: self.score,
            descendants: self.descendants,
            time: self.time,
            kids: ids_view(self.kids),
        }
    }
}

/// The text of a field, or the empty text if the field is absent.
pub open spec fn text_or_empty(field: Option<Seq<char>>) -> Seq<char> {
    match field {
        Some(t) => t,
        None => Seq::empty(),
    }
}

/// The number in a field, or zero if the field is absent.
pub open spec fn number_or_zero(field: Option<i64>) -> i64 {
    match field {
        Some(n) => n,
        None => 0,
    }
}

/// The IDs in a field, or none if the field is absent.
pub open spec fn ids_or_none(field: Option<Seq<i64>>) -> Seq<i64> {
    match field {
        Some(ids) => ids,
        None => Seq::empty(),
    }
}

impl WireItemView {
    /// Whether the fields that every item needs are there, for the item
    /// that was asked for, with a time that `chrono` can represent.
    pub open spec fn has_header(self, requested: i64) -> bool {
        &&& self.id == Some(requested)
        &&& self.kind is Some
        &&& self.time matches Some(secs) && chrono_represents(secs)
    }

    /// The story that the fields describe.
    pub open spec fn as_story(self) -> StoryItemView {
        StoryItemView {
            id: self.id->0,
            title: self.title->0,
            url: self.url,
            text: self.text,
            by: text_or_empty(self.by),
            score: number_or_zero(self.score),
            descendants: number_or_zero(self.descendants),
            time: self.time->0,
            kids: ids_or_none(self.kids),
            kind: self.kind->0,
        }
    }

    /// The comment that the fields describe, with no replies resolved yet.
    pub open spec fn as_comment(self) -> CommentView {
        CommentView {
            id: self.id->0,
            by: text_or_empty(self.by),
            text: text_or_empty(self.text),
            time: self.time->0,
            kids: ids_or_none(self.kids),
            sub_comments: Seq::empty(),
            kind: self.kind->0,
        }
    }
}

/// The item that the answer to a fetch of `requested` decodes to. No body
/// means that the remote system has no such item.
pub open spec fn decoded(requested: i64, body: Option<WireItemView>) -> Result<
    ItemView,
    GatewayError,
> {
    match body {
        None => Err(GatewayError::NotFound),
        Some(w) => {
            if !w.has_header(requested) {
                Err(GatewayError::DecodeError)
            } else if w.kind->0 == "story"@ {
                if w.title is Some {
                    Ok(ItemView::Story(w.as_story()))
                } else {
                    Err(GatewayError::DecodeError)
                }
            } else if w.kind->0 == "comment"@ {
                Ok(ItemView::Comment(w.as_comment()))
            } else {
                Err(GatewayError::DecodeError)
            }
        },
    }
}

/// Mathematical value of an optional body.
pub open spec fn body_view(body: Option<WireItem>) -> Option<WireItemView> {
    match body {
        Some(w) => Some(w@),
        None => None,
    }
}

/// Whatever decodes carries the ID that was asked for.
pub proof fn lemma_decoded_is_faithful(requested: i64, body: Option<WireItemView>)
    ensures
        match decoded(requested, body) {
            Ok(ItemView::Story(s)) => s.id == requested,
            Ok(ItemView::Comment(c)) => c.id == requested && c.sub_comments.len() == 0,
            Err(_) => true,
        },
{
}

fn text_or_default(field: Option<String>) -> (text: String)
    ensures
        text@ == text_or_empty(text_view(field)),
{
    match field {
        Some(t) => t,
        None => String::new(),
    }
}

fn number_or_default(field: Option<i64>) -> (n: i64)
    ensures
        n == number_or_zero(field),
{
    match field {
        Some(n) => n,
        None => 0,
    }
}

fn ids_or_default(field: Option<Vec<i64>>) -> (ids: Vec<i64>)
    ensures
        ids@ == ids_or_none(ids_view(field)),
{
    match field {
        Some(ids) => ids,
        None => Vec::new(),
    }
}

/// Decodes the answer to a fetch of `requested`. An absent body is
/// `NotFound`; a body that is not the item asked for, lacks a needed field,
/// has a time out of range or an unknown type is a `DecodeError`.
pub fn decode_item(requested: i64, body: Option<WireItem>) -> (answer: Result<Item, GatewayError>)
    ensures
        outcome_view(answer) == decoded(requested, body_view(body)),
{
    let wire = match body {
        None => {
            return Err(GatewayError::NotFound);
        },
        Some(w) => w,
    };
    let WireItem { id, kind, title, url, text, by, score, descendants, time, kids } = wire;
    let id = match id {
        Some(id) => id,
        None => {
            return Err(GatewayError::DecodeError);
        },
    };
    if id != requested {
        return Err(GatewayError::DecodeError);
    }
    let kind = match kind {
        Some(kind) => kind,
        None => {
            return Err(GatewayError::DecodeError);
        },
    };
    let secs = match time {
        Some(secs) => secs,
        None => {
            return Err(GatewayError::DecodeError);
        },
    };
    let time = match Timestamp::from_epoch_seconds(secs) {
        Some(time) => time,
        None => {
            return Err(GatewayError::DecodeError);
        },
    };
    if kind == String::from_str("story") {
        match title {
            Some(title) => {
                let story = StoryItem {
                    id,
                    title,
                    url,
                    text,
                    by: text_or_default(by),
                    score: number_or_default(score),
                    descendants: number_or_default(descendants),
                    time,
                    kids: ids_or_default(kids),
                    kind,
                };
                Ok(Item::Story(story))
            },
            None => Err(GatewayError::DecodeError),
        }
    } else if kind == String::from_str("comment") {
        let sub_comments: Vec<Comment> = Vec::new();
        let comment = Comment {
            id,
            by: text_or_default(by),
            text: text_or_default(text),
            time,
            kids: ids_or_default(kids),
            sub_comments,
            kind,
        };
        assert(comment@.sub_comments =~= Seq::empty());
        Ok(Item::Comment(comment))
    } else {
        Err(GatewayError::DecodeError)
    }
}

} // verus!
